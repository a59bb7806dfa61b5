//! The track container and the boxes under it down to the sample table.

use vstd::prelude::*;
use vstd::utf8::{encode_utf8, valid_utf8};
use crate::types::{BoxType, Error, FourCC};
use crate::bytes::{be16, be32, be64, copy_range, fits, u16_at, u32_at, u64_at, utf8_string};
use crate::header::{BoxHeader, be24, body_end, child_body, child_body_len, children_ok, last_child, read_child_header};
use crate::dinf::DinfBox;
use crate::edts::EdtsBox;
use crate::stbl::StblBox;

verus! {

/// A transformation matrix of nine 32-bit fixed-point values.
#[derive(Debug, Clone, Copy, PartialEq, Eq, Structural)]
pub struct Matrix {
    pub a: u32,
    pub b: u32,
    pub u: u32,
    pub c: u32,
    pub d: u32,
    pub v: u32,
    pub x: u32,
    pub y: u32,
    pub w: u32,
}

/// Track header.
#[derive(Debug, Clone, Copy, PartialEq, Eq, Structural)]
pub struct TkhdBox {
    pub version: u8,
    pub flags: u32,
    pub creation_time: u64,
    pub modification_time: u64,
    pub track_id: u32,
    pub duration: u64,
    pub layer: u16,
    pub alternate_group: u16,
    pub volume: u16,
    pub matrix: Matrix,
    /// Q16.16 fixed point.
    pub width: u32,
    /// Q16.16 fixed point.
    pub height: u32,
}

/// Media header.
#[derive(Debug, Clone, PartialEq, Eq)]
pub struct MdhdBox {
    pub version: u8,
    pub flags: u32,
    pub creation_time: u64,
    pub modification_time: u64,
    pub timescale: u32,
    pub duration: u64,
    /// ISO-639-2/T code, three lower-case letters.
    pub language: String,
}

/// Handler reference: what kind of media the track holds.
#[derive(Debug, Clone, PartialEq, Eq)]
pub struct HdlrBox {
    pub version: u8,
    pub flags: u32,
    pub handler_type: FourCC,
    pub name: String,
}

/// Video media header.
#[derive(Debug, Clone, Copy, PartialEq, Eq, Structural)]
pub struct VmhdBox {
    pub version: u8,
    pub flags: u32,
    pub graphics_mode: u16,
    pub op_red: u16,
    pub op_green: u16,
    pub op_blue: u16,
}

/// Sound media header.
#[derive(Debug, Clone, Copy, PartialEq, Eq, Structural)]
pub struct SmhdBox {
    pub version: u8,
    pub flags: u32,
    pub balance: u16,
}

/// Media information container.
#[derive(Debug, Clone, PartialEq, Eq)]
pub struct MinfBox {
    pub vmhd: Option<VmhdBox>,
    pub smhd: Option<SmhdBox>,
    pub dinf: Option<DinfBox>,
    pub stbl: Option<StblBox>,
}

/// Media container.
#[derive(Debug, Clone, PartialEq, Eq)]
pub struct MdiaBox {
    pub mdhd: Option<MdhdBox>,
    pub hdlr: Option<HdlrBox>,
    pub minf: Option<MinfBox>,
}

/// Track container.
#[derive(Debug, Clone, PartialEq, Eq)]
pub struct TrakBox {
    pub tkhd: Option<TkhdBox>,
    pub edts: Option<EdtsBox>,
    pub mdia: Option<MdiaBox>,
}

impl TrakBox {
    /// Type of the box.
    pub fn box_type() -> (r: BoxType)
        ensures
            r == BoxType::TrakBox,
    {
        BoxType::TrakBox
    }

    /// A track with no children.
    pub fn new() -> (r: TrakBox)
        ensures
            r.tkhd is None,
            r.edts is None,
            r.mdia is None,
    {
        TrakBox { tkhd: None, edts: None, mdia: None }
    }
}

/// The matrix stored at `q`.
pub open spec fn spec_matrix(s: Seq<u8>, q: int) -> Matrix {
    Matrix {
        a: be32(s, q),
        b: be32(s, q + 4),
        u: be32(s, q + 8),
        c: be32(s, q + 12),
        d: be32(s, q + 16),
        v: be32(s, q + 20),
        x: be32(s, q + 24),
        y: be32(s, q + 28),
        w: be32(s, q + 32),
    }
}

pub(crate) fn matrix_at(data: &[u8], q: usize) -> (r: Matrix)
    requires
        fits(data@, q as int, 36),
        q + 36 <= usize::MAX,
    ensures
        r == spec_matrix(data@, q as int),
{
    Matrix {
        a: u32_at(data, q),
        b: u32_at(data, q + 4),
        u: u32_at(data, q + 8),
        c: u32_at(data, q + 12),
        d: u32_at(data, q + 16),
        v: u32_at(data, q + 20),
        x: u32_at(data, q + 24),
        y: u32_at(data, q + 28),
        w: u32_at(data, q + 32),
    }
}

/// Body length of a track header of the given version.
pub open spec fn tkhd_body_len(version: u8) -> int {
    if version == 1 { 96 } else { 84 }
}

/// The track header whose body starts at `p`.
pub open spec fn spec_tkhd(s: Seq<u8>, p: int) -> TkhdBox {
    let version = s[p];
    let r = if version == 1 { p + 36 } else { p + 24 };
    TkhdBox {
        version,
        flags: be24(s, p + 1),
        creation_time: if version == 1 { be64(s, p + 4) } else { be32(s, p + 4) as u64 },
        modification_time: if version == 1 { be64(s, p + 12) } else { be32(s, p + 8) as u64 },
        track_id: if version == 1 { be32(s, p + 20) } else { be32(s, p + 12) },
        duration: if version == 1 { be64(s, p + 28) } else { be32(s, p + 20) as u64 },
        layer: be16(s, r + 8),
        alternate_group: be16(s, r + 10),
        volume: be16(s, r + 12),
        matrix: spec_matrix(s, r + 16),
        width: be32(s, r + 52),
        height: be32(s, r + 56),
    }
}

/// Body length of a media header of the given version.
pub open spec fn mdhd_body_len(version: u8) -> int {
    if version == 1 { 36 } else { 24 }
}

/// The letters of a packed language code: three 5-bit values, each offset by 0x60.
pub open spec fn language_bytes(code: u16) -> Seq<u8> {
    seq![
        (((code >> 10u16) & 0x1fu16) + 0x60u16) as u8,
        (((code >> 5u16) & 0x1fu16) + 0x60u16) as u8,
        ((code & 0x1fu16) + 0x60u16) as u8,
    ]
}

/// Whether `b` is the media header whose body starts at `p`.
pub open spec fn mdhd_at(s: Seq<u8>, p: int, b: MdhdBox) -> bool {
    let version = s[p];
    let lang = if version == 1 { be16(s, p + 32) } else { be16(s, p + 20) };
    &&& b.version == version
    &&& b.flags == be24(s, p + 1)
    &&& b.creation_time == if version == 1 { be64(s, p + 4) } else { be32(s, p + 4) as u64 }
    &&& b.modification_time == if version == 1 { be64(s, p + 12) } else { be32(s, p + 8) as u64 }
    &&& b.timescale == if version == 1 { be32(s, p + 20) } else { be32(s, p + 12) }
    &&& b.duration == if version == 1 { be64(s, p + 24) } else { be32(s, p + 16) as u64 }
    &&& valid_utf8(language_bytes(lang)) ==> encode_utf8(b.language@) == language_bytes(lang)
}

/// The name of a handler: after a length byte when that byte gives the
/// length of the printable rest, else up to the first zero byte.
pub open spec fn hdlr_name_bytes(rest: Seq<u8>) -> Seq<u8> {
    if rest.len() > 0 && rest[0] == rest.len() - 1 && forall|i: int| 1 <= i < rest.len() ==> 0x20 <= #[trigger] rest[i] <= 0x7e {
        rest.subrange(1, rest.len() as int)
    } else {
        until_zero(rest)
    }
}

/// The bytes before the first zero byte, or all of them.
pub open spec fn until_zero(s: Seq<u8>) -> Seq<u8>
    decreases s.len(),
{
    if s.len() == 0 {
        s
    } else if s[0] == 0 {
        Seq::empty()
    } else {
        seq![s[0]] + until_zero(s.drop_first())
    }
}

pub proof fn lemma_until_zero(s: Seq<u8>, i: int)
    requires
        0 <= i <= s.len(),
        forall|j: int| 0 <= j < i ==> s[j] != 0,
        i < s.len() ==> s[i] == 0,
    ensures
        until_zero(s) == s.subrange(0, i),
    decreases s.len(),
{
    if s.len() > 0 {
        if i == 0 {
            assert(s.subrange(0, 0) =~= Seq::<u8>::empty());
        } else {
            lemma_until_zero(s.drop_first(), i - 1);
            assert(seq![s[0]] + s.drop_first().subrange(0, i - 1) =~= s.subrange(0, i));
        }
    }
}

/// Reads the text of `bytes`, or an empty text when they are not UTF-8.
fn text_of(bytes: Vec<u8>) -> (r: String)
    ensures
        valid_utf8(bytes@) ==> encode_utf8(r@) == bytes@,
        !valid_utf8(bytes@) ==> r@.len() == 0,
{
    match utf8_string(bytes) {
        Some(t) => t,
        None => String::new(),
    }
}

/// Whether the body of `body` bytes at `p` reads as a box of this type.
pub open spec fn tkhd_read_ok(s: Seq<u8>, p: int, body: int) -> bool {
    !(body < 4) && !(!fits(s, p, body)) && !(s[p] > 1) && !(body < tkhd_body_len(s[p]))
}

/// Whether `x` is what the body of `body` bytes at `p` reads as.
pub open spec fn tkhd_read_at(s: Seq<u8>, p: int, body: int, x: TkhdBox) -> bool {
    {
        x == (spec_tkhd(s, p))
    }
}

impl TkhdBox {
    /// Reads the body of a `tkhd` box whose header `header` was read just
    /// before the cursor.
    pub fn read_box(data: &[u8], pos: &mut usize, header: BoxHeader) -> (r: Result<TkhdBox, Error>)
        requires
            header.header_len <= header.size,
        ensures
            ({
                let body = header.size - header.header_len;
                let p = *old(pos) as int;
                if body < 4 {
                    r == Err::<TkhdBox, Error>(Error::InvalidData("invalid tkhd size"))
                } else if !fits(data@, p, body) {
                    r == Err::<TkhdBox, Error>(Error::Io)
                } else if data@[p] > 1 {
                    r == Err::<TkhdBox, Error>(Error::UnsupportedBoxVersion(BoxType::TkhdBox, data@[p]))
                } else if body < tkhd_body_len(data@[p]) {
                    r == Err::<TkhdBox, Error>(Error::InvalidData("invalid tkhd size"))
                } else {
                    r == Ok::<TkhdBox, Error>(spec_tkhd(data@, p)) && *final(pos) == p + body
                }
            }),
    {
        let body = header.size - header.header_len;
        if body < 4 {
            return Err(Error::InvalidData("invalid tkhd size"));
        }
        let end = match body_end(data, *pos, body) {
            Ok(e) => e,
            Err(e) => return Err(e),
        };
        let p = *pos;
        let version = data[p];
        if version > 1 {
            return Err(Error::UnsupportedBoxVersion(BoxType::TkhdBox, version));
        }
        if body < (if version == 1 { 96 } else { 84 }) {
            return Err(Error::InvalidData("invalid tkhd size"));
        }
        let flags = (data[p + 1] as u32) * 65536 + (data[p + 2] as u32) * 256 + (data[p + 3] as u32);
        let (creation_time, modification_time, track_id, duration, r) = if version == 1 {
            (u64_at(data, p + 4), u64_at(data, p + 12), u32_at(data, p + 20), u64_at(data, p + 28), p + 36)
        } else {
            (u32_at(data, p + 4) as u64, u32_at(data, p + 8) as u64, u32_at(data, p + 12), u32_at(data, p + 20) as u64, p + 24)
        };
        let b = TkhdBox {
            version,
            flags,
            creation_time,
            modification_time,
            track_id,
            duration,
            layer: u16_at(data, r + 8),
            alternate_group: u16_at(data, r + 10),
            volume: u16_at(data, r + 12),
            matrix: matrix_at(data, r + 16),
            width: u32_at(data, r + 52),
            height: u32_at(data, r + 56),
        };
        *pos = end;
        Ok(b)
    }
}

/// Whether the body of `body` bytes at `p` reads as a box of this type.
pub open spec fn mdhd_read_ok(s: Seq<u8>, p: int, body: int) -> bool {
    !(body < 4) && !(!fits(s, p, body)) && !(s[p] > 1) && !(body < mdhd_body_len(s[p]))
}

/// Whether `x` is what the body of `body` bytes at `p` reads as.
pub open spec fn mdhd_read_at(s: Seq<u8>, p: int, body: int, x: MdhdBox) -> bool {
    {
        mdhd_at(s, p, x)
    }
}

impl MdhdBox {
    /// Reads the body of an `mdhd` box whose header `header` was read just
    /// before the cursor; the language code is decoded to its letters.
    pub fn read_box(data: &[u8], pos: &mut usize, header: BoxHeader) -> (r: Result<MdhdBox, Error>)
        requires
            header.header_len <= header.size,
        ensures
            ({
                let body = header.size - header.header_len;
                let p = *old(pos) as int;
                if body < 4 {
                    r == Err::<MdhdBox, Error>(Error::InvalidData("invalid mdhd size"))
                } else if !fits(data@, p, body) {
                    r == Err::<MdhdBox, Error>(Error::Io)
                } else if data@[p] > 1 {
                    r == Err::<MdhdBox, Error>(Error::UnsupportedBoxVersion(BoxType::MdhdBox, data@[p]))
                } else if body < mdhd_body_len(data@[p]) {
                    r == Err::<MdhdBox, Error>(Error::InvalidData("invalid mdhd size"))
                } else {
                    r is Ok && mdhd_at(data@, p, r->Ok_0) && *final(pos) == p + body
                }
            }),
    {
        let body = header.size - header.header_len;
        if body < 4 {
            return Err(Error::InvalidData("invalid mdhd size"));
        }
        let end = match body_end(data, *pos, body) {
            Ok(e) => e,
            Err(e) => return Err(e),
        };
        let p = *pos;
        let version = data[p];
        if version > 1 {
            return Err(Error::UnsupportedBoxVersion(BoxType::MdhdBox, version));
        }
        if body < (if version == 1 { 36 } else { 24 }) {
            return Err(Error::InvalidData("invalid mdhd size"));
        }
        let flags = (data[p + 1] as u32) * 65536 + (data[p + 2] as u32) * 256 + (data[p + 3] as u32);
        let (creation_time, modification_time, timescale, duration, code) = if version == 1 {
            (u64_at(data, p + 4), u64_at(data, p + 12), u32_at(data, p + 20), u64_at(data, p + 24), u16_at(data, p + 32))
        } else {
            (u32_at(data, p + 4) as u64, u32_at(data, p + 8) as u64, u32_at(data, p + 12), u32_at(data, p + 16) as u64, u16_at(data, p + 20))
        };
        assert((code >> 10u16) & 0x1fu16 <= 0x1f && (code >> 5u16) & 0x1fu16 <= 0x1f && code & 0x1fu16 <= 0x1f)
            by (bit_vector);
        let mut letters: Vec<u8> = Vec::new();
        letters.push((((code >> 10u16) & 0x1fu16) + 0x60u16) as u8);
        letters.push((((code >> 5u16) & 0x1fu16) + 0x60u16) as u8);
        letters.push(((code & 0x1fu16) + 0x60u16) as u8);
        assert(letters@ =~= language_bytes(code));
        let language = text_of(letters);
        *pos = end;
        Ok(MdhdBox { version, flags, creation_time, modification_time, timescale, duration, language })
    }
}

/// Whether the body of `body` bytes at `p` reads as a box of this type.
pub open spec fn hdlr_read_ok(s: Seq<u8>, p: int, body: int) -> bool {
    !(body < 24) && !(!fits(s, p, body))
}

/// Whether `x` is what the body of `body` bytes at `p` reads as.
pub open spec fn hdlr_read_at(s: Seq<u8>, p: int, body: int, x: HdlrBox) -> bool {
    {
        let name = hdlr_name_bytes(s.subrange(p + 24, p + body));
        &&& x.version == s[p]
        &&& x.flags == be24(s, p + 1)
        &&& x.handler_type.value == be32(s, p + 8)
        &&& valid_utf8(name) ==> encode_utf8(x.name@) == name
        &&& !valid_utf8(name) ==> x.name@.len() == 0
    }
}

impl HdlrBox {
    /// Reads the body of an `hdlr` box whose header `header` was read just
    /// before the cursor.
    pub fn read_box(data: &[u8], pos: &mut usize, header: BoxHeader) -> (r: Result<HdlrBox, Error>)
        requires
            header.header_len <= header.size,
        ensures
            ({
                let body = header.size - header.header_len;
                let p = *old(pos) as int;
                if body < 24 {
                    r == Err::<HdlrBox, Error>(Error::InvalidData("invalid hdlr size"))
                } else if !fits(data@, p, body) {
                    r == Err::<HdlrBox, Error>(Error::Io)
                } else {
                    let name = hdlr_name_bytes(data@.subrange(p + 24, p + body));
                    &&& r is Ok
                    &&& r->Ok_0.version == data@[p]
                    &&& r->Ok_0.flags == be24(data@, p + 1)
                    &&& r->Ok_0.handler_type.value == be32(data@, p + 8)
                    &&& valid_utf8(name) ==> encode_utf8(r->Ok_0.name@) == name
                    &&& !valid_utf8(name) ==> r->Ok_0.name@.len() == 0
                    &&& *final(pos) == p + body
                }
            }),
    {
        let body = header.size - header.header_len;
        if body < 24 {
            return Err(Error::InvalidData("invalid hdlr size"));
        }
        let end = match body_end(data, *pos, body) {
            Ok(e) => e,
            Err(e) => return Err(e),
        };
        let p = *pos;
        let version = data[p];
        let flags = (data[p + 1] as u32) * 65536 + (data[p + 2] as u32) * 256 + (data[p + 3] as u32);
        let handler_type = FourCC { value: u32_at(data, p + 8) };
        let start = p + 24;
        let ghost rest = data@.subrange(start as int, end as int);
        let mut pascal = start < end && data[start] as usize == end - start - 1;
        let mut k: usize = if start < end { start + 1 } else { end };
        while pascal && k < end
            invariant
                start + 1 <= k <= end || (start == end && !pascal),
                end <= data@.len(),
                rest == data@.subrange(start as int, end as int),
                pascal ==> rest.len() > 0 && rest[0] == rest.len() - 1,
                !pascal ==> !(rest.len() > 0 && rest[0] == rest.len() - 1)
                    || exists|i: int| 1 <= i < rest.len() && !(0x20 <= #[trigger] rest[i] <= 0x7e),
                pascal ==> forall|i: int| 1 <= i < k - start ==> 0x20 <= #[trigger] rest[i] <= 0x7e,
            decreases end - k,
        {
            if data[k] < 0x20 || data[k] > 0x7e {
                assert(rest[k - start] == data@[k as int]);
                pascal = false;
            }
            k = k + 1;
        }
        let name_bytes = if pascal {
            copy_range(data, start + 1, end)
        } else {
            let mut n: usize = start;
            while n < end && data[n] != 0
                invariant
                    start <= n <= end <= data@.len(),
                    forall|j: int| start <= j < n ==> data@[j] != 0,
                decreases end - n,
            {
                n = n + 1;
            }
            proof {
                lemma_until_zero(rest, n - start);
            }
            copy_range(data, start, n)
        };
        proof {
            if pascal {
                assert(name_bytes@ =~= rest.subrange(1, rest.len() as int));
            } else {
                if rest.len() > 0 && rest[0] == rest.len() - 1 {
                    assert(!(forall|i: int| 1 <= i < rest.len() ==> 0x20 <= #[trigger] rest[i] <= 0x7e));
                }
                assert(name_bytes@ =~= until_zero(rest));
            }
        }
        let name = text_of(name_bytes);
        *pos = end;
        Ok(HdlrBox { version, flags, handler_type, name })
    }
}

/// Whether the body of `body` bytes at `p` reads as a box of this type.
pub open spec fn vmhd_read_ok(s: Seq<u8>, p: int, body: int) -> bool {
    !(body < 12) && !(!fits(s, p, body))
}

/// Whether `x` is what the body of `body` bytes at `p` reads as.
pub open spec fn vmhd_read_at(s: Seq<u8>, p: int, body: int, x: VmhdBox) -> bool {
    {
        &&& x == (VmhdBox {
            version: s[p],
            flags: be24(s, p + 1),
            graphics_mode: be16(s, p + 4),
            op_red: be16(s, p + 6),
            op_green: be16(s, p + 8),
            op_blue: be16(s, p + 10),
        })
    }
}

impl VmhdBox {
    /// Reads the body of a `vmhd` box whose header `header` was read just
    /// before the cursor.
    pub fn read_box(data: &[u8], pos: &mut usize, header: BoxHeader) -> (r: Result<VmhdBox, Error>)
        requires
            header.header_len <= header.size,
        ensures
            ({
                let body = header.size - header.header_len;
                let p = *old(pos) as int;
                if body < 12 {
                    r == Err::<VmhdBox, Error>(Error::InvalidData("invalid vmhd size"))
                } else if !fits(data@, p, body) {
                    r == Err::<VmhdBox, Error>(Error::Io)
                } else {
                    &&& r == Ok::<VmhdBox, Error>(VmhdBox {
                        version: data@[p],
                        flags: be24(data@, p + 1),
                        graphics_mode: be16(data@, p + 4),
                        op_red: be16(data@, p + 6),
                        op_green: be16(data@, p + 8),
                        op_blue: be16(data@, p + 10),
                    })
                    &&& *final(pos) == p + body
                }
            }),
    {
        let body = header.size - header.header_len;
        if body < 12 {
            return Err(Error::InvalidData("invalid vmhd size"));
        }
        let end = match body_end(data, *pos, body) {
            Ok(e) => e,
            Err(e) => return Err(e),
        };
        let p = *pos;
        let b = VmhdBox {
            version: data[p],
            flags: (data[p + 1] as u32) * 65536 + (data[p + 2] as u32) * 256 + (data[p + 3] as u32),
            graphics_mode: u16_at(data, p + 4),
            op_red: u16_at(data, p + 6),
            op_green: u16_at(data, p + 8),
            op_blue: u16_at(data, p + 10),
        };
        *pos = end;
        Ok(b)
    }
}

/// Whether the body of `body` bytes at `p` reads as a box of this type.
pub open spec fn smhd_read_ok(s: Seq<u8>, p: int, body: int) -> bool {
    !(body < 8) && !(!fits(s, p, body))
}

/// Whether `x` is what the body of `body` bytes at `p` reads as.
pub open spec fn smhd_read_at(s: Seq<u8>, p: int, body: int, x: SmhdBox) -> bool {
    {
        &&& x == (SmhdBox {
            version: s[p],
            flags: be24(s, p + 1),
            balance: be16(s, p + 4),
        })
    }
}

impl SmhdBox {
    /// Reads the body of an `smhd` box whose header `header` was read just
    /// before the cursor.
    pub fn read_box(data: &[u8], pos: &mut usize, header: BoxHeader) -> (r: Result<SmhdBox, Error>)
        requires
            header.header_len <= header.size,
        ensures
            ({
                let body = header.size - header.header_len;
                let p = *old(pos) as int;
                if body < 8 {
                    r == Err::<SmhdBox, Error>(Error::InvalidData("invalid smhd size"))
                } else if !fits(data@, p, body) {
                    r == Err::<SmhdBox, Error>(Error::Io)
                } else {
                    &&& r == Ok::<SmhdBox, Error>(SmhdBox {
                        version: data@[p],
                        flags: be24(data@, p + 1),
                        balance: be16(data@, p + 4),
                    })
                    &&& *final(pos) == p + body
                }
            }),
    {
        let body = header.size - header.header_len;
        if body < 8 {
            return Err(Error::InvalidData("invalid smhd size"));
        }
        let end = match body_end(data, *pos, body) {
            Ok(e) => e,
            Err(e) => return Err(e),
        };
        let p = *pos;
        let b = SmhdBox {
            version: data[p],
            flags: (data[p + 1] as u32) * 65536 + (data[p + 2] as u32) * 256 + (data[p + 3] as u32),
            balance: u16_at(data, p + 4),
        };
        *pos = end;
        Ok(b)
    }
}

/// What a child of a `minf` box must satisfy: each known child must read.
pub open spec fn minf_child(s: Seq<u8>, b: int, l: int, n: BoxType) -> bool {
    &&& (n == BoxType::VmhdBox ==> crate::trak::vmhd_read_ok(s, b, l))
    &&& (n == BoxType::SmhdBox ==> crate::trak::smhd_read_ok(s, b, l))
    &&& (n == BoxType::DinfBox ==> crate::dinf::dinf_ok(s, b, l))
    &&& (n == BoxType::StblBox ==> crate::stbl::stbl_read_ok(s, b, l))
}

/// The children condition of a `minf` box.
pub open spec fn minf_children() -> spec_fn(Seq<u8>, int, int, BoxType) -> bool {
    |s: Seq<u8>, b: int, l: int, n: BoxType| minf_child(s, b, l, n)
}

/// Whether the body of `body` bytes at `p` reads as a `minf` box: its children
/// lie within it and each known one reads.
pub open spec fn minf_read_ok(s: Seq<u8>, p: int, body: int) -> bool {
    &&& fits(s, p, body)
    &&& children_ok(s, p, p + body, minf_children())
}

/// Whether `x` is what the body of `body` bytes at `p` reads as: each field
/// holds what its last child of that type reads as, and is empty without one.
pub open spec fn minf_read_at(s: Seq<u8>, p: int, body: int, x: MinfBox) -> bool {
    &&& match last_child(s, p, p + body, BoxType::VmhdBox) {
        None => x.vmhd is None,
        Some(q) => x.vmhd is Some && crate::trak::vmhd_read_at(s, child_body(s, q), child_body_len(s, q), x.vmhd->Some_0),
    }
    &&& match last_child(s, p, p + body, BoxType::SmhdBox) {
        None => x.smhd is None,
        Some(q) => x.smhd is Some && crate::trak::smhd_read_at(s, child_body(s, q), child_body_len(s, q), x.smhd->Some_0),
    }
    &&& match last_child(s, p, p + body, BoxType::DinfBox) {
        None => x.dinf is None,
        Some(q) => x.dinf is Some && crate::dinf::dinf_at(s, child_body(s, q), child_body_len(s, q), x.dinf->Some_0),
    }
    &&& match last_child(s, p, p + body, BoxType::StblBox) {
        None => x.stbl is None,
        Some(q) => x.stbl is Some && crate::stbl::stbl_read_at(s, child_body(s, q), child_body_len(s, q), x.stbl->Some_0),
    }
}

impl MinfBox {
    /// Reads the body of a `minf` box whose header `header` was read just
    /// before the cursor: each known child is read, the last of a type is
    /// kept, and unknown children are skipped.
    #[verifier::rlimit(60)]
    pub fn read_box(data: &[u8], pos: &mut usize, header: BoxHeader) -> (r: Result<MinfBox, Error>)
        requires
            header.header_len <= header.size,
        ensures
            ({
                let body = header.size - header.header_len;
                let p = *old(pos) as int;
                if !fits(data@, p, body) {
                    r == Err::<MinfBox, Error>(Error::Io)
                } else {
                    &&& r is Ok <==> minf_read_ok(data@, p, body)
                    &&& r matches Ok(x) ==> minf_read_at(data@, p, body, x) && *final(pos) == p + body
                }
            }),
    {
        let body = header.size - header.header_len;
        let end = match body_end(data, *pos, body) {
            Ok(e) => e,
            Err(e) => return Err(e),
        };
        let ghost p = *old(pos) as int;
        let mut b = MinfBox { vmhd: None, smhd: None, dinf: None, stbl: None };
        let ghost mut g_vmhd: Option<int> = None;
        let ghost mut g_smhd: Option<int> = None;
        let ghost mut g_dinf: Option<int> = None;
        let ghost mut g_stbl: Option<int> = None;
        while *pos < end
            invariant
                end <= data@.len(),
                end == p + body,
                p == *old(pos),
                body == header.size - header.header_len,
                fits(data@, p, body as int),
                p <= *pos <= end,
                children_ok(data@, p, end as int, minf_children()) == children_ok(data@, *pos as int, end as int, minf_children()),
                last_child(data@, p, end as int, BoxType::VmhdBox) == match last_child(data@, *pos as int, end as int, BoxType::VmhdBox) {
                    Some(x) => Some(x),
                    None => g_vmhd,
                },
                g_vmhd is None <==> b.vmhd is None,
                g_vmhd matches Some(q) ==> b.vmhd is Some && crate::trak::vmhd_read_at(data@, child_body(data@, q), child_body_len(data@, q), b.vmhd->Some_0),
                last_child(data@, p, end as int, BoxType::SmhdBox) == match last_child(data@, *pos as int, end as int, BoxType::SmhdBox) {
                    Some(x) => Some(x),
                    None => g_smhd,
                },
                g_smhd is None <==> b.smhd is None,
                g_smhd matches Some(q) ==> b.smhd is Some && crate::trak::smhd_read_at(data@, child_body(data@, q), child_body_len(data@, q), b.smhd->Some_0),
                last_child(data@, p, end as int, BoxType::DinfBox) == match last_child(data@, *pos as int, end as int, BoxType::DinfBox) {
                    Some(x) => Some(x),
                    None => g_dinf,
                },
                g_dinf is None <==> b.dinf is None,
                g_dinf matches Some(q) ==> b.dinf is Some && crate::dinf::dinf_at(data@, child_body(data@, q), child_body_len(data@, q), b.dinf->Some_0),
                last_child(data@, p, end as int, BoxType::StblBox) == match last_child(data@, *pos as int, end as int, BoxType::StblBox) {
                    Some(x) => Some(x),
                    None => g_stbl,
                },
                g_stbl is None <==> b.stbl is None,
                g_stbl matches Some(q) ==> b.stbl is Some && crate::stbl::stbl_read_at(data@, child_body(data@, q), child_body_len(data@, q), b.stbl->Some_0),
            decreases end - *pos,
        {
            let ghost q = *pos as int;
            let h = read_child_header(data, pos, end)?;
            let child_end = *pos - h.header_len as usize + h.size as usize;
            match h.name {
                BoxType::VmhdBox => {
                    b.vmhd = Some(VmhdBox::read_box(data, pos, h)?);
                    proof {
                        g_vmhd = Some(q);
                    }
                },
                BoxType::SmhdBox => {
                    b.smhd = Some(SmhdBox::read_box(data, pos, h)?);
                    proof {
                        g_smhd = Some(q);
                    }
                },
                BoxType::DinfBox => {
                    b.dinf = Some(DinfBox::read_box(data, pos, h)?);
                    proof {
                        g_dinf = Some(q);
                    }
                },
                BoxType::StblBox => {
                    b.stbl = Some(StblBox::read_box(data, pos, h)?);
                    proof {
                        g_stbl = Some(q);
                    }
                },
                _ => {},
            }
            *pos = child_end;
        }
        *pos = end;
        Ok(b)
    }
}

/// What a child of a `mdia` box must satisfy: each known child must read.
pub open spec fn mdia_child(s: Seq<u8>, b: int, l: int, n: BoxType) -> bool {
    &&& (n == BoxType::MdhdBox ==> crate::trak::mdhd_read_ok(s, b, l))
    &&& (n == BoxType::HdlrBox ==> crate::trak::hdlr_read_ok(s, b, l))
    &&& (n == BoxType::MinfBox ==> crate::trak::minf_read_ok(s, b, l))
}

/// The children condition of a `mdia` box.
pub open spec fn mdia_children() -> spec_fn(Seq<u8>, int, int, BoxType) -> bool {
    |s: Seq<u8>, b: int, l: int, n: BoxType| mdia_child(s, b, l, n)
}

/// Whether the body of `body` bytes at `p` reads as a `mdia` box: its children
/// lie within it and each known one reads.
pub open spec fn mdia_read_ok(s: Seq<u8>, p: int, body: int) -> bool {
    &&& fits(s, p, body)
    &&& children_ok(s, p, p + body, mdia_children())
}

/// Whether `x` is what the body of `body` bytes at `p` reads as: each field
/// holds what its last child of that type reads as, and is empty without one.
pub open spec fn mdia_read_at(s: Seq<u8>, p: int, body: int, x: MdiaBox) -> bool {
    &&& match last_child(s, p, p + body, BoxType::MdhdBox) {
        None => x.mdhd is None,
        Some(q) => x.mdhd is Some && crate::trak::mdhd_read_at(s, child_body(s, q), child_body_len(s, q), x.mdhd->Some_0),
    }
    &&& match last_child(s, p, p + body, BoxType::HdlrBox) {
        None => x.hdlr is None,
        Some(q) => x.hdlr is Some && crate::trak::hdlr_read_at(s, child_body(s, q), child_body_len(s, q), x.hdlr->Some_0),
    }
    &&& match last_child(s, p, p + body, BoxType::MinfBox) {
        None => x.minf is None,
        Some(q) => x.minf is Some && crate::trak::minf_read_at(s, child_body(s, q), child_body_len(s, q), x.minf->Some_0),
    }
}

impl MdiaBox {
    /// Reads the body of a `mdia` box whose header `header` was read just
    /// before the cursor: each known child is read, the last of a type is
    /// kept, and unknown children are skipped.
    #[verifier::rlimit(60)]
    pub fn read_box(data: &[u8], pos: &mut usize, header: BoxHeader) -> (r: Result<MdiaBox, Error>)
        requires
            header.header_len <= header.size,
        ensures
            ({
                let body = header.size - header.header_len;
                let p = *old(pos) as int;
                if !fits(data@, p, body) {
                    r == Err::<MdiaBox, Error>(Error::Io)
                } else {
                    &&& r is Ok <==> mdia_read_ok(data@, p, body)
                    &&& r matches Ok(x) ==> mdia_read_at(data@, p, body, x) && *final(pos) == p + body
                }
            }),
    {
        let body = header.size - header.header_len;
        let end = match body_end(data, *pos, body) {
            Ok(e) => e,
            Err(e) => return Err(e),
        };
        let ghost p = *old(pos) as int;
        let mut b = MdiaBox { mdhd: None, hdlr: None, minf: None };
        let ghost mut g_mdhd: Option<int> = None;
        let ghost mut g_hdlr: Option<int> = None;
        let ghost mut g_minf: Option<int> = None;
        while *pos < end
            invariant
                end <= data@.len(),
                end == p + body,
                p == *old(pos),
                body == header.size - header.header_len,
                fits(data@, p, body as int),
                p <= *pos <= end,
                children_ok(data@, p, end as int, mdia_children()) == children_ok(data@, *pos as int, end as int, mdia_children()),
                last_child(data@, p, end as int, BoxType::MdhdBox) == match last_child(data@, *pos as int, end as int, BoxType::MdhdBox) {
                    Some(x) => Some(x),
                    None => g_mdhd,
                },
                g_mdhd is None <==> b.mdhd is None,
                g_mdhd matches Some(q) ==> b.mdhd is Some && crate::trak::mdhd_read_at(data@, child_body(data@, q), child_body_len(data@, q), b.mdhd->Some_0),
                last_child(data@, p, end as int, BoxType::HdlrBox) == match last_child(data@, *pos as int, end as int, BoxType::HdlrBox) {
                    Some(x) => Some(x),
                    None => g_hdlr,
                },
                g_hdlr is None <==> b.hdlr is None,
                g_hdlr matches Some(q) ==> b.hdlr is Some && crate::trak::hdlr_read_at(data@, child_body(data@, q), child_body_len(data@, q), b.hdlr->Some_0),
                last_child(data@, p, end as int, BoxType::MinfBox) == match last_child(data@, *pos as int, end as int, BoxType::MinfBox) {
                    Some(x) => Some(x),
                    None => g_minf,
                },
                g_minf is None <==> b.minf is None,
                g_minf matches Some(q) ==> b.minf is Some && crate::trak::minf_read_at(data@, child_body(data@, q), child_body_len(data@, q), b.minf->Some_0),
            decreases end - *pos,
        {
            let ghost q = *pos as int;
            let h = read_child_header(data, pos, end)?;
            let child_end = *pos - h.header_len as usize + h.size as usize;
            match h.name {
                BoxType::MdhdBox => {
                    b.mdhd = Some(MdhdBox::read_box(data, pos, h)?);
                    proof {
                        g_mdhd = Some(q);
                    }
                },
                BoxType::HdlrBox => {
                    b.hdlr = Some(HdlrBox::read_box(data, pos, h)?);
                    proof {
                        g_hdlr = Some(q);
                    }
                },
                BoxType::MinfBox => {
                    b.minf = Some(MinfBox::read_box(data, pos, h)?);
                    proof {
                        g_minf = Some(q);
                    }
                },
                _ => {},
            }
            *pos = child_end;
        }
        *pos = end;
        Ok(b)
    }
}

/// What a child of a `trak` box must satisfy: each known child must read.
pub open spec fn trak_child(s: Seq<u8>, b: int, l: int, n: BoxType) -> bool {
    &&& (n == BoxType::TkhdBox ==> crate::trak::tkhd_read_ok(s, b, l))
    &&& (n == BoxType::EdtsBox ==> crate::edts::edts_read_ok(s, b, l))
    &&& (n == BoxType::MdiaBox ==> crate::trak::mdia_read_ok(s, b, l))
}

/// The children condition of a `trak` box.
pub open spec fn trak_children() -> spec_fn(Seq<u8>, int, int, BoxType) -> bool {
    |s: Seq<u8>, b: int, l: int, n: BoxType| trak_child(s, b, l, n)
}

/// Whether the body of `body` bytes at `p` reads as a `trak` box: its children
/// lie within it and each known one reads.
pub open spec fn trak_read_ok(s: Seq<u8>, p: int, body: int) -> bool {
    &&& fits(s, p, body)
    &&& children_ok(s, p, p + body, trak_children())
}

/// Whether `x` is what the body of `body` bytes at `p` reads as: each field
/// holds what its last child of that type reads as, and is empty without one.
pub open spec fn trak_read_at(s: Seq<u8>, p: int, body: int, x: TrakBox) -> bool {
    &&& match last_child(s, p, p + body, BoxType::TkhdBox) {
        None => x.tkhd is None,
        Some(q) => x.tkhd is Some && crate::trak::tkhd_read_at(s, child_body(s, q), child_body_len(s, q), x.tkhd->Some_0),
    }
    &&& match last_child(s, p, p + body, BoxType::EdtsBox) {
        None => x.edts is None,
        Some(q) => x.edts is Some && crate::edts::edts_read_at(s, child_body(s, q), child_body_len(s, q), x.edts->Some_0),
    }
    &&& match last_child(s, p, p + body, BoxType::MdiaBox) {
        None => x.mdia is None,
        Some(q) => x.mdia is Some && crate::trak::mdia_read_at(s, child_body(s, q), child_body_len(s, q), x.mdia->Some_0),
    }
}

impl TrakBox {
    /// Reads the body of a `trak` box whose header `header` was read just
    /// before the cursor: each known child is read, the last of a type is
    /// kept, and unknown children are skipped.
    #[verifier::rlimit(60)]
    pub fn read_box(data: &[u8], pos: &mut usize, header: BoxHeader) -> (r: Result<TrakBox, Error>)
        requires
            header.header_len <= header.size,
        ensures
            ({
                let body = header.size - header.header_len;
                let p = *old(pos) as int;
                if !fits(data@, p, body) {
                    r == Err::<TrakBox, Error>(Error::Io)
                } else {
                    &&& r is Ok <==> trak_read_ok(data@, p, body)
                    &&& r matches Ok(x) ==> trak_read_at(data@, p, body, x) && *final(pos) == p + body
                }
            }),
    {
        let body = header.size - header.header_len;
        let end = match body_end(data, *pos, body) {
            Ok(e) => e,
            Err(e) => return Err(e),
        };
        let ghost p = *old(pos) as int;
        let mut b = TrakBox::new();
        let ghost mut g_tkhd: Option<int> = None;
        let ghost mut g_edts: Option<int> = None;
        let ghost mut g_mdia: Option<int> = None;
        while *pos < end
            invariant
                end <= data@.len(),
                end == p + body,
                p == *old(pos),
                body == header.size - header.header_len,
                fits(data@, p, body as int),
                p <= *pos <= end,
                children_ok(data@, p, end as int, trak_children()) == children_ok(data@, *pos as int, end as int, trak_children()),
                last_child(data@, p, end as int, BoxType::TkhdBox) == match last_child(data@, *pos as int, end as int, BoxType::TkhdBox) {
                    Some(x) => Some(x),
                    None => g_tkhd,
                },
                g_tkhd is None <==> b.tkhd is None,
                g_tkhd matches Some(q) ==> b.tkhd is Some && crate::trak::tkhd_read_at(data@, child_body(data@, q), child_body_len(data@, q), b.tkhd->Some_0),
                last_child(data@, p, end as int, BoxType::EdtsBox) == match last_child(data@, *pos as int, end as int, BoxType::EdtsBox) {
                    Some(x) => Some(x),
                    None => g_edts,
                },
                g_edts is None <==> b.edts is None,
                g_edts matches Some(q) ==> b.edts is Some && crate::edts::edts_read_at(data@, child_body(data@, q), child_body_len(data@, q), b.edts->Some_0),
                last_child(data@, p, end as int, BoxType::MdiaBox) == match last_child(data@, *pos as int, end as int, BoxType::MdiaBox) {
                    Some(x) => Some(x),
                    None => g_mdia,
                },
                g_mdia is None <==> b.mdia is None,
                g_mdia matches Some(q) ==> b.mdia is Some && crate::trak::mdia_read_at(data@, child_body(data@, q), child_body_len(data@, q), b.mdia->Some_0),
            decreases end - *pos,
        {
            let ghost q = *pos as int;
            let h = read_child_header(data, pos, end)?;
            let child_end = *pos - h.header_len as usize + h.size as usize;
            match h.name {
                BoxType::TkhdBox => {
                    b.tkhd = Some(TkhdBox::read_box(data, pos, h)?);
                    proof {
                        g_tkhd = Some(q);
                    }
                },
                BoxType::EdtsBox => {
                    b.edts = Some(EdtsBox::read_box(data, pos, h)?);
                    proof {
                        g_edts = Some(q);
                    }
                },
                BoxType::MdiaBox => {
                    b.mdia = Some(MdiaBox::read_box(data, pos, h)?);
                    proof {
                        g_mdia = Some(q);
                    }
                },
                _ => {},
            }
            *pos = child_end;
        }
        *pos = end;
        Ok(b)
    }
}

} // verus!
