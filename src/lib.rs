//! Reading and writing of ISO base media files (MP4): a typed box tree with
//! exact byte accounting, and a sample-table engine that resolves sample
//! numbers to file offsets, sizes, timing and sync flags.

pub mod types;
pub mod bytes;
pub mod header;
pub mod ftyp;
pub mod dinf;
pub mod edts;
pub mod stbl;
pub mod trak;
pub mod serialize;
pub mod table;
pub mod track;
pub mod reader;

pub use types::{BoxType, Error, FourCC, MediaType, TrackType};
pub use header::{BoxHeader, read_box_header, write_box_header};
pub use ftyp::FtypBox;
pub use dinf::{DinfBox, DrefBox, UrlBox};
pub use edts::{EdtsBox, ElstBox, ElstEntry};
pub use trak::{HdlrBox, MdhdBox, MdiaBox, MinfBox, SmhdBox, TkhdBox, TrakBox, VmhdBox};
pub use stbl::{
    Avc1Box, Co64Box, CttsBox, CttsEntry, Mp4aBox, StblBox, StcoBox, StscBox, StscEntry, StsdBox, StssBox, SttsBox,
    SttsEntry, StszBox,
};
pub use track::{Mp4Sample, Mp4Track};
pub use reader::{MoovBox, Mp4Reader, MvhdBox};
