//! Four-character codes, the closed set of recognized box types, and the
//! error taxonomy.

use vstd::prelude::*;
use vstd::string::StringSliceAdditionalSpecFns;
use crate::bytes::{be32, read_u32};

verus! {

/// Size of a compact box header: 32-bit size and 32-bit type.
pub const HEADER_SIZE: u64 = 8;

/// Size of the version and flags prefix of a full box.
pub const HEADER_EXT_SIZE: u64 = 4;

/// A four-byte tag, held as its big-endian 32-bit value.
#[derive(Debug, Clone, Copy, PartialEq, Eq, Structural, Hash)]
pub struct FourCC {
    pub value: u32,
}

/// The box types this library recognizes, with an escape for any other tag.
#[derive(Debug, Clone, Copy, PartialEq, Eq, Structural, Hash)]
pub enum BoxType {
    FtypBox,
    MvhdBox,
    FreeBox,
    MdatBox,
    MoovBox,
    TrakBox,
    TkhdBox,
    EdtsBox,
    MdiaBox,
    ElstBox,
    MdhdBox,
    HdlrBox,
    MinfBox,
    VmhdBox,
    StblBox,
    StsdBox,
    SttsBox,
    CttsBox,
    StssBox,
    StscBox,
    StszBox,
    StcoBox,
    Co64Box,
    SmhdBox,
    Avc1Box,
    AvcCBox,
    Mp4aBox,
    EsdsBox,
    DinfBox,
    DrefBox,
    UrlBox,
    SkipBox,
    WideBox,
    UnknownBox(u32),
}

/// The tag value of each known box type.
pub open spec fn spec_tag(t: BoxType) -> u32 {
    match t {
        BoxType::FtypBox => 0x66747970,
        BoxType::MvhdBox => 0x6d766864,
        BoxType::FreeBox => 0x66726565,
        BoxType::MdatBox => 0x6d646174,
        BoxType::MoovBox => 0x6d6f6f76,
        BoxType::TrakBox => 0x7472616b,
        BoxType::TkhdBox => 0x746b6864,
        BoxType::EdtsBox => 0x65647473,
        BoxType::MdiaBox => 0x6d646961,
        BoxType::ElstBox => 0x656c7374,
        BoxType::MdhdBox => 0x6d646864,
        BoxType::HdlrBox => 0x68646c72,
        BoxType::MinfBox => 0x6d696e66,
        BoxType::VmhdBox => 0x766d6864,
        BoxType::StblBox => 0x7374626c,
        BoxType::StsdBox => 0x73747364,
        BoxType::SttsBox => 0x73747473,
        BoxType::CttsBox => 0x63747473,
        BoxType::StssBox => 0x73747373,
        BoxType::StscBox => 0x73747363,
        BoxType::StszBox => 0x7374737a,
        BoxType::StcoBox => 0x7374636f,
        BoxType::Co64Box => 0x636f3634,
        BoxType::SmhdBox => 0x736d6864,
        BoxType::Avc1Box => 0x61766331,
        BoxType::AvcCBox => 0x61766343,
        BoxType::Mp4aBox => 0x6d703461,
        BoxType::EsdsBox => 0x65736473,
        BoxType::DinfBox => 0x64696e66,
        BoxType::DrefBox => 0x64726566,
        BoxType::UrlBox => 0x75726c20,
        BoxType::SkipBox => 0x736b6970,
        BoxType::WideBox => 0x77696465,
        BoxType::UnknownBox(v) => v,
    }
}

/// The box type a tag stands for: a known type when the tag is one of theirs.
pub open spec fn spec_box_type(v: u32) -> BoxType {
    if v == 0x66747970 { BoxType::FtypBox }
    else if v == 0x6d766864 { BoxType::MvhdBox }
    else if v == 0x66726565 { BoxType::FreeBox }
    else if v == 0x6d646174 { BoxType::MdatBox }
    else if v == 0x6d6f6f76 { BoxType::MoovBox }
    else if v == 0x7472616b { BoxType::TrakBox }
    else if v == 0x746b6864 { BoxType::TkhdBox }
    else if v == 0x65647473 { BoxType::EdtsBox }
    else if v == 0x6d646961 { BoxType::MdiaBox }
    else if v == 0x656c7374 { BoxType::ElstBox }
    else if v == 0x6d646864 { BoxType::MdhdBox }
    else if v == 0x68646c72 { BoxType::HdlrBox }
    else if v == 0x6d696e66 { BoxType::MinfBox }
    else if v == 0x766d6864 { BoxType::VmhdBox }
    else if v == 0x7374626c { BoxType::StblBox }
    else if v == 0x73747364 { BoxType::StsdBox }
    else if v == 0x73747473 { BoxType::SttsBox }
    else if v == 0x63747473 { BoxType::CttsBox }
    else if v == 0x73747373 { BoxType::StssBox }
    else if v == 0x73747363 { BoxType::StscBox }
    else if v == 0x7374737a { BoxType::StszBox }
    else if v == 0x7374636f { BoxType::StcoBox }
    else if v == 0x636f3634 { BoxType::Co64Box }
    else if v == 0x736d6864 { BoxType::SmhdBox }
    else if v == 0x61766331 { BoxType::Avc1Box }
    else if v == 0x61766343 { BoxType::AvcCBox }
    else if v == 0x6d703461 { BoxType::Mp4aBox }
    else if v == 0x65736473 { BoxType::EsdsBox }
    else if v == 0x64696e66 { BoxType::DinfBox }
    else if v == 0x64726566 { BoxType::DrefBox }
    else if v == 0x75726c20 { BoxType::UrlBox }
    else if v == 0x736b6970 { BoxType::SkipBox }
    else if v == 0x77696465 { BoxType::WideBox }
    else { BoxType::UnknownBox(v) }
}

impl BoxType {
    /// The box type that a tag value stands for.
    pub fn from_tag(v: u32) -> (r: BoxType)
        ensures
            r == spec_box_type(v),
    {
        if v == 0x66747970 { BoxType::FtypBox }
        else if v == 0x6d766864 { BoxType::MvhdBox }
        else if v == 0x66726565 { BoxType::FreeBox }
        else if v == 0x6d646174 { BoxType::MdatBox }
        else if v == 0x6d6f6f76 { BoxType::MoovBox }
        else if v == 0x7472616b { BoxType::TrakBox }
        else if v == 0x746b6864 { BoxType::TkhdBox }
        else if v == 0x65647473 { BoxType::EdtsBox }
        else if v == 0x6d646961 { BoxType::MdiaBox }
        else if v == 0x656c7374 { BoxType::ElstBox }
        else if v == 0x6d646864 { BoxType::MdhdBox }
        else if v == 0x68646c72 { BoxType::HdlrBox }
        else if v == 0x6d696e66 { BoxType::MinfBox }
        else if v == 0x766d6864 { BoxType::VmhdBox }
        else if v == 0x7374626c { BoxType::StblBox }
        else if v == 0x73747364 { BoxType::StsdBox }
        else if v == 0x73747473 { BoxType::SttsBox }
        else if v == 0x63747473 { BoxType::CttsBox }
        else if v == 0x73747373 { BoxType::StssBox }
        else if v == 0x73747363 { BoxType::StscBox }
        else if v == 0x7374737a { BoxType::StszBox }
        else if v == 0x7374636f { BoxType::StcoBox }
        else if v == 0x636f3634 { BoxType::Co64Box }
        else if v == 0x736d6864 { BoxType::SmhdBox }
        else if v == 0x61766331 { BoxType::Avc1Box }
        else if v == 0x61766343 { BoxType::AvcCBox }
        else if v == 0x6d703461 { BoxType::Mp4aBox }
        else if v == 0x65736473 { BoxType::EsdsBox }
        else if v == 0x64696e66 { BoxType::DinfBox }
        else if v == 0x64726566 { BoxType::DrefBox }
        else if v == 0x75726c20 { BoxType::UrlBox }
        else if v == 0x736b6970 { BoxType::SkipBox }
        else if v == 0x77696465 { BoxType::WideBox }
        else { BoxType::UnknownBox(v) }
    }

    /// The tag value written for this box type.
    pub fn tag(&self) -> (r: u32)
        ensures
            r == spec_tag(*self),
    {
        match self {
            BoxType::FtypBox => 0x66747970,
            BoxType::MvhdBox => 0x6d766864,
            BoxType::FreeBox => 0x66726565,
            BoxType::MdatBox => 0x6d646174,
            BoxType::MoovBox => 0x6d6f6f76,
            BoxType::TrakBox => 0x7472616b,
            BoxType::TkhdBox => 0x746b6864,
            BoxType::EdtsBox => 0x65647473,
            BoxType::MdiaBox => 0x6d646961,
            BoxType::ElstBox => 0x656c7374,
            BoxType::MdhdBox => 0x6d646864,
            BoxType::HdlrBox => 0x68646c72,
            BoxType::MinfBox => 0x6d696e66,
            BoxType::VmhdBox => 0x766d6864,
            BoxType::StblBox => 0x7374626c,
            BoxType::StsdBox => 0x73747364,
            BoxType::SttsBox => 0x73747473,
            BoxType::CttsBox => 0x63747473,
            BoxType::StssBox => 0x73747373,
            BoxType::StscBox => 0x73747363,
            BoxType::StszBox => 0x7374737a,
            BoxType::StcoBox => 0x7374636f,
            BoxType::Co64Box => 0x636f3634,
            BoxType::SmhdBox => 0x736d6864,
            BoxType::Avc1Box => 0x61766331,
            BoxType::AvcCBox => 0x61766343,
            BoxType::Mp4aBox => 0x6d703461,
            BoxType::EsdsBox => 0x65736473,
            BoxType::DinfBox => 0x64696e66,
            BoxType::DrefBox => 0x64726566,
            BoxType::UrlBox => 0x75726c20,
            BoxType::SkipBox => 0x736b6970,
            BoxType::WideBox => 0x77696465,
            BoxType::UnknownBox(v) => *v,
        }
    }
}

impl FourCC {
    /// The code of a four-byte name, such as `"isom"`; `None` for a name of
    /// another length in bytes.
    pub fn from_name(name: &str) -> (r: Option<FourCC>)
        ensures
            name.spec_bytes().len() == 4 ==> r == Some(FourCC { value: be32(name.spec_bytes(), 0) }),
            name.spec_bytes().len() != 4 ==> r is None,
    {
        let b = name.as_bytes();
        if b.len() != 4 {
            return None;
        }
        let mut pos: usize = 0;
        match read_u32(b, &mut pos) {
            Ok(v) => Some(FourCC { value: v }),
            Err(_) => None,
        }
    }

    /// The tag of a box type, as a four-character code.
    pub fn from_box_type(t: BoxType) -> (r: FourCC)
        ensures
            r.value == spec_tag(t),
    {
        FourCC { value: t.tag() }
    }
}

/// The kind of media a track carries, from its handler type.
#[derive(Debug, Clone, Copy, PartialEq, Eq, Structural)]
pub enum TrackType {
    Video,
    Audio,
}

/// The coding of a track's samples, from its sample entry.
#[derive(Debug, Clone, Copy, PartialEq, Eq, Structural)]
pub enum MediaType {
    H264,
    AAC,
}

/// Handler tag of a video track.
pub const HANDLER_VIDE: u32 = 0x76696465;

/// Handler tag of a sound track.
pub const HANDLER_SOUN: u32 = 0x736f756e;

/// Errors of parsing, writing and sample resolution.
#[derive(Debug, Clone, Copy, PartialEq, Eq)]
pub enum Error {
    /// The byte source ended before the data that was asked for.
    Io,
    /// A structural violation: wrong box size, bad field, sample number 0.
    InvalidData(&'static str),
    /// A required box is absent.
    BoxNotFound(BoxType),
    /// Neither of two alternative boxes is present.
    Box2NotFound(BoxType, BoxType),
    /// A box expected under the sample table of a track is absent.
    BoxInStblNotFound(u32, BoxType),
    /// An index lies out of range of a sample table of a track.
    EntryInStblNotFound(u32, BoxType, u32),
    /// A version field holds a value that this library does not read.
    UnsupportedBoxVersion(BoxType, u8),
}

} // verus!
