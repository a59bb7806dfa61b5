//! The sample table boxes: sample descriptions, the run-length tables of
//! decode times and composition offsets, sync samples, sample-to-chunk runs,
//! sample sizes and chunk offsets.

use vstd::prelude::*;
use crate::types::{BoxType, Error};
use crate::bytes::{be16, be32, be64, fits, read_u32, read_u64, u16_at, u32_at};
use crate::header::{BoxHeader, be24, body_end, child_body, child_body_len, children_ok, last_child, read_box_header_ext, read_child_header};

verus! {

/// One run of `sample_count` samples that each last `sample_delta` ticks.
#[derive(Debug, Clone, Copy, PartialEq, Eq, Structural)]
pub struct SttsEntry {
    pub sample_count: u32,
    pub sample_delta: u32,
}

/// Decode time to sample table.
#[derive(Debug, Clone, PartialEq, Eq)]
pub struct SttsBox {
    pub version: u8,
    pub flags: u32,
    pub entries: Vec<SttsEntry>,
}

/// One run of `sample_count` samples that share a composition offset.
#[derive(Debug, Clone, Copy, PartialEq, Eq, Structural)]
pub struct CttsEntry {
    pub sample_count: u32,
    pub sample_offset: i32,
}

/// Composition time to sample table.
#[derive(Debug, Clone, PartialEq, Eq)]
pub struct CttsBox {
    pub version: u8,
    pub flags: u32,
    pub entries: Vec<CttsEntry>,
}

/// Sync sample table: the ascending numbers of the sync samples.
#[derive(Debug, Clone, PartialEq, Eq)]
pub struct StssBox {
    pub version: u8,
    pub flags: u32,
    pub entries: Vec<u32>,
}

/// One run of chunks, from `first_chunk` on, each of `samples_per_chunk`
/// samples; `first_sample` is the number of the run's first sample, derived
/// on load.
#[derive(Debug, Clone, Copy, PartialEq, Eq, Structural)]
pub struct StscEntry {
    pub first_chunk: u32,
    pub samples_per_chunk: u32,
    pub sample_description_index: u32,
    pub first_sample: u32,
}

/// Sample to chunk table.
#[derive(Debug, Clone, PartialEq, Eq)]
pub struct StscBox {
    pub version: u8,
    pub flags: u32,
    pub entries: Vec<StscEntry>,
}

/// Sample size table: one size for all samples when `sample_size > 0`, else
/// one size per sample.
#[derive(Debug, Clone, PartialEq, Eq)]
pub struct StszBox {
    pub version: u8,
    pub flags: u32,
    pub sample_size: u32,
    pub sample_count: u32,
    pub sample_sizes: Vec<u32>,
}

/// Chunk offset table with 32-bit offsets.
#[derive(Debug, Clone, PartialEq, Eq)]
pub struct StcoBox {
    pub version: u8,
    pub flags: u32,
    pub entries: Vec<u32>,
}

/// Chunk offset table with 64-bit offsets.
#[derive(Debug, Clone, PartialEq, Eq)]
pub struct Co64Box {
    pub version: u8,
    pub flags: u32,
    pub entries: Vec<u64>,
}

/// The fields of an `avc1` sample entry that describe the picture.
#[derive(Debug, Clone, Copy, PartialEq, Eq, Structural)]
pub struct Avc1Box {
    pub data_reference_index: u16,
    pub width: u16,
    pub height: u16,
    pub horizresolution: u32,
    pub vertresolution: u32,
    pub frame_count: u16,
    pub depth: u16,
}

/// The fields of an `mp4a` sample entry that describe the sound.
#[derive(Debug, Clone, Copy, PartialEq, Eq, Structural)]
pub struct Mp4aBox {
    pub data_reference_index: u16,
    pub channelcount: u16,
    pub samplesize: u16,
    /// Q16.16 fixed point.
    pub samplerate: u32,
}

/// Sample description table, with the last `avc1` and `mp4a` entries read.
#[derive(Debug, Clone, PartialEq, Eq)]
pub struct StsdBox {
    pub version: u8,
    pub flags: u32,
    pub entry_count: u32,
    pub avc1: Option<Avc1Box>,
    pub mp4a: Option<Mp4aBox>,
}

/// Sample table container: each child is present or absent as read.
#[derive(Debug, Clone, PartialEq, Eq)]
pub struct StblBox {
    pub stsd: Option<StsdBox>,
    pub stts: Option<SttsBox>,
    pub ctts: Option<CttsBox>,
    pub stss: Option<StssBox>,
    pub stsc: Option<StscBox>,
    pub stsz: Option<StszBox>,
    pub stco: Option<StcoBox>,
    pub co64: Option<Co64Box>,
}

/// Whether a table body of `body` bytes at `p` holds its fixed part of
/// `fixed` bytes and `count` entries of `per` bytes each.
pub open spec fn table_fits(body: int, fixed: int, count: int, per: int) -> bool {
    fixed + count * per <= body
}

/// The common checks of a table box: a body of at least `fixed` bytes that
/// lies in the source, and room for its entries. Yields the end of the body,
/// version, flags and entry count, with the cursor after the count.
fn read_table_head(data: &[u8], pos: &mut usize, header: BoxHeader, per: u64) -> (r: Result<(usize, u8, u32, u32), Error>)
    requires
        header.header_len <= header.size,
        per <= 20,
    ensures
        ({
            let body = header.size - header.header_len;
            let p = *old(pos) as int;
            if body < 8 {
                r == Err::<(usize, u8, u32, u32), Error>(Error::InvalidData("invalid table size"))
            } else if !fits(data@, p, body) {
                r == Err::<(usize, u8, u32, u32), Error>(Error::Io)
            } else if !table_fits(body, 8, be32(data@, p + 4) as int, per as int) {
                r == Err::<(usize, u8, u32, u32), Error>(Error::InvalidData("invalid table size"))
            } else {
                &&& r is Ok
                &&& r->Ok_0.0 == p + body
                &&& r->Ok_0.1 == data@[p]
                &&& r->Ok_0.2 == be24(data@, p + 1)
                &&& r->Ok_0.3 == be32(data@, p + 4)
                &&& *final(pos) == p + 8
                &&& p + body <= data@.len()
            }
        }),
{
    let body = header.size - header.header_len;
    if body < 8 {
        return Err(Error::InvalidData("invalid table size"));
    }
    let end = match body_end(data, *pos, body) {
        Ok(e) => e,
        Err(e) => return Err(e),
    };
    let (version, flags) = read_box_header_ext(data, pos)?;
    let count = read_u32(data, pos)?;
    assert(count as u64 * per <= 0xffff_ffff * 20) by (nonlinear_arith)
        requires
            count <= 0xffff_ffff,
            per <= 20,
    ;
    if 8 + count as u64 * per > body {
        return Err(Error::InvalidData("invalid table size"));
    }
    Ok((end, version, flags, count))
}

/// Reads `count` big-endian 32-bit numbers from the cursor on.
fn read_u32_list(data: &[u8], pos: &mut usize, count: u32) -> (r: Vec<u32>)
    requires
        fits(data@, *old(pos) as int, 4 * count),
    ensures
        r@.len() == count,
        forall|i: int| 0 <= i < count ==> #[trigger] r@[i] == be32(data@, *old(pos) + 4 * i),
        *final(pos) == *old(pos) + 4 * count,
{
    let ghost p = *pos as int;
    let mut v: Vec<u32> = Vec::new();
    let mut i: u32 = 0;
    while i < count
        invariant
            fits(data@, p, 4 * count),
            0 <= i <= count,
            *pos == p + 4 * i,
            v@.len() == i,
            forall|j: int| 0 <= j < i ==> #[trigger] v@[j] == be32(data@, p + 4 * j),
        decreases count - i,
    {
        let x = match read_u32(data, pos) {
            Ok(x) => x,
            Err(_) => 0,
        };
        v.push(x);
        i = i + 1;
    }
    v
}

/// Whether the body of `body` bytes at `p` reads as a box of this type.
pub open spec fn stts_read_ok(s: Seq<u8>, p: int, body: int) -> bool {
    !(body < 8) && !(!fits(s, p, body)) && !(!table_fits(body, 8, be32(s, p + 4) as int, 8))
}

/// Whether `x` is what the body of `body` bytes at `p` reads as.
#[verifier::opaque]
pub open spec fn stts_read_at(s: Seq<u8>, p: int, body: int, x: SttsBox) -> bool {
    {
        &&& x.version == s[p]
        &&& x.flags == be24(s, p + 1)
        &&& x.entries@.len() == be32(s, p + 4)
        &&& forall|i: int| 0 <= i < x.entries@.len() ==> {
            &&& (#[trigger] x.entries@[i]).sample_count == be32(s, p + 8 + 8 * i)
            &&& x.entries@[i].sample_delta == be32(s, p + 12 + 8 * i)
        }
    }
}

impl SttsBox {
    /// Reads the body of an `stts` box whose header `header` was read just
    /// before the cursor.
    pub fn read_box(data: &[u8], pos: &mut usize, header: BoxHeader) -> (r: Result<SttsBox, Error>)
        requires
            header.header_len <= header.size,
        ensures
            ({
                let body = header.size - header.header_len;
                let p = *old(pos) as int;
                if body < 8 {
                    r == Err::<SttsBox, Error>(Error::InvalidData("invalid table size"))
                } else if !fits(data@, p, body) {
                    r == Err::<SttsBox, Error>(Error::Io)
                } else if !table_fits(body, 8, be32(data@, p + 4) as int, 8) {
                    r == Err::<SttsBox, Error>(Error::InvalidData("invalid table size"))
                } else {
                    &&& r is Ok
                    &&& r->Ok_0.version == data@[p]
                    &&& r->Ok_0.flags == be24(data@, p + 1)
                    &&& r->Ok_0.entries@.len() == be32(data@, p + 4)
                    &&& forall|i: int| 0 <= i < r->Ok_0.entries@.len() ==> {
                        &&& (#[trigger] r->Ok_0.entries@[i]).sample_count == be32(data@, p + 8 + 8 * i)
                        &&& r->Ok_0.entries@[i].sample_delta == be32(data@, p + 12 + 8 * i)
                    }
                    &&& *final(pos) == p + body
                }
            }),
    {
        let ghost p = *pos as int;
        let (end, version, flags, count) = match read_table_head(data, pos, header, 8) {
            Ok(t) => t,
            Err(e) => return Err(e),
        };
        let mut entries: Vec<SttsEntry> = Vec::new();
        let mut i: u32 = 0;
        while i < count
            invariant
                p + 8 + 8 * count <= end <= data@.len(),
                0 <= i <= count,
                *pos == p + 8 + 8 * i,
                entries@.len() == i,
                forall|j: int| 0 <= j < i ==> {
                    &&& (#[trigger] entries@[j]).sample_count == be32(data@, p + 8 + 8 * j)
                    &&& entries@[j].sample_delta == be32(data@, p + 12 + 8 * j)
                },
            decreases count - i,
        {
            let sample_count = read_u32(data, pos)?;
            let sample_delta = read_u32(data, pos)?;
            entries.push(SttsEntry { sample_count, sample_delta });
            i = i + 1;
        }
        *pos = end;
        Ok(SttsBox { version, flags, entries })
    }
}

/// Whether the body of `body` bytes at `p` reads as a box of this type.
pub open spec fn ctts_read_ok(s: Seq<u8>, p: int, body: int) -> bool {
    !(body < 8) && !(!fits(s, p, body)) && !(!table_fits(body, 8, be32(s, p + 4) as int, 8))
}

/// Whether `x` is what the body of `body` bytes at `p` reads as.
#[verifier::opaque]
pub open spec fn ctts_read_at(s: Seq<u8>, p: int, body: int, x: CttsBox) -> bool {
    {
        &&& x.version == s[p]
        &&& x.flags == be24(s, p + 1)
        &&& x.entries@.len() == be32(s, p + 4)
        &&& forall|i: int| 0 <= i < x.entries@.len() ==> {
            &&& (#[trigger] x.entries@[i]).sample_count == be32(s, p + 8 + 8 * i)
            &&& x.entries@[i].sample_offset == #[verifier::truncate] (be32(s, p + 12 + 8 * i) as i32)
        }
    }
}

impl CttsBox {
    /// Reads the body of a `ctts` box whose header `header` was read just
    /// before the cursor.
    pub fn read_box(data: &[u8], pos: &mut usize, header: BoxHeader) -> (r: Result<CttsBox, Error>)
        requires
            header.header_len <= header.size,
        ensures
            ({
                let body = header.size - header.header_len;
                let p = *old(pos) as int;
                if body < 8 {
                    r == Err::<CttsBox, Error>(Error::InvalidData("invalid table size"))
                } else if !fits(data@, p, body) {
                    r == Err::<CttsBox, Error>(Error::Io)
                } else if !table_fits(body, 8, be32(data@, p + 4) as int, 8) {
                    r == Err::<CttsBox, Error>(Error::InvalidData("invalid table size"))
                } else {
                    &&& r is Ok
                    &&& r->Ok_0.version == data@[p]
                    &&& r->Ok_0.flags == be24(data@, p + 1)
                    &&& r->Ok_0.entries@.len() == be32(data@, p + 4)
                    &&& forall|i: int| 0 <= i < r->Ok_0.entries@.len() ==> {
                        &&& (#[trigger] r->Ok_0.entries@[i]).sample_count == be32(data@, p + 8 + 8 * i)
                        &&& r->Ok_0.entries@[i].sample_offset == #[verifier::truncate] (be32(data@, p + 12 + 8 * i) as i32)
                    }
                    &&& *final(pos) == p + body
                }
            }),
    {
        let ghost p = *pos as int;
        let (end, version, flags, count) = match read_table_head(data, pos, header, 8) {
            Ok(t) => t,
            Err(e) => return Err(e),
        };
        let mut entries: Vec<CttsEntry> = Vec::new();
        let mut i: u32 = 0;
        while i < count
            invariant
                p + 8 + 8 * count <= end <= data@.len(),
                0 <= i <= count,
                *pos == p + 8 + 8 * i,
                entries@.len() == i,
                forall|j: int| 0 <= j < i ==> {
                    &&& (#[trigger] entries@[j]).sample_count == be32(data@, p + 8 + 8 * j)
                    &&& entries@[j].sample_offset == #[verifier::truncate] (be32(data@, p + 12 + 8 * j) as i32)
                },
            decreases count - i,
        {
            let sample_count = read_u32(data, pos)?;
            let sample_offset = #[verifier::truncate] (read_u32(data, pos)? as i32);
            entries.push(CttsEntry { sample_count, sample_offset });
            i = i + 1;
        }
        *pos = end;
        Ok(CttsBox { version, flags, entries })
    }
}

/// Whether the body of `body` bytes at `p` reads as a box of this type.
pub open spec fn stsc_read_ok(s: Seq<u8>, p: int, body: int) -> bool {
    !(body < 8) && !(!fits(s, p, body)) && !(!table_fits(body, 8, be32(s, p + 4) as int, 12))
}

/// Whether `x` is what the body of `body` bytes at `p` reads as.
#[verifier::opaque]
pub open spec fn stsc_read_at(s: Seq<u8>, p: int, body: int, x: StscBox) -> bool {
    {
        &&& x.version == s[p]
        &&& x.flags == be24(s, p + 1)
        &&& x.entries@.len() == be32(s, p + 4)
        &&& forall|i: int| 0 <= i < x.entries@.len() ==> {
            &&& (#[trigger] x.entries@[i]).first_chunk == be32(s, p + 8 + 12 * i)
            &&& x.entries@[i].samples_per_chunk == be32(s, p + 12 + 12 * i)
            &&& x.entries@[i].sample_description_index == be32(s, p + 16 + 12 * i)
            &&& x.entries@[i].first_sample == 0
        }
    }
}

impl StscBox {
    /// Reads the body of an `stsc` box whose header `header` was read just
    /// before the cursor; first samples are left 0, to be derived on load.
    pub fn read_box(data: &[u8], pos: &mut usize, header: BoxHeader) -> (r: Result<StscBox, Error>)
        requires
            header.header_len <= header.size,
        ensures
            ({
                let body = header.size - header.header_len;
                let p = *old(pos) as int;
                if body < 8 {
                    r == Err::<StscBox, Error>(Error::InvalidData("invalid table size"))
                } else if !fits(data@, p, body) {
                    r == Err::<StscBox, Error>(Error::Io)
                } else if !table_fits(body, 8, be32(data@, p + 4) as int, 12) {
                    r == Err::<StscBox, Error>(Error::InvalidData("invalid table size"))
                } else {
                    &&& r is Ok
                    &&& r->Ok_0.version == data@[p]
                    &&& r->Ok_0.flags == be24(data@, p + 1)
                    &&& r->Ok_0.entries@.len() == be32(data@, p + 4)
                    &&& forall|i: int| 0 <= i < r->Ok_0.entries@.len() ==> {
                        &&& (#[trigger] r->Ok_0.entries@[i]).first_chunk == be32(data@, p + 8 + 12 * i)
                        &&& r->Ok_0.entries@[i].samples_per_chunk == be32(data@, p + 12 + 12 * i)
                        &&& r->Ok_0.entries@[i].sample_description_index == be32(data@, p + 16 + 12 * i)
                        &&& r->Ok_0.entries@[i].first_sample == 0
                    }
                    &&& *final(pos) == p + body
                }
            }),
    {
        let ghost p = *pos as int;
        let (end, version, flags, count) = match read_table_head(data, pos, header, 12) {
            Ok(t) => t,
            Err(e) => return Err(e),
        };
        let mut entries: Vec<StscEntry> = Vec::new();
        let mut i: u32 = 0;
        while i < count
            invariant
                p + 8 + 12 * count <= end <= data@.len(),
                0 <= i <= count,
                *pos == p + 8 + 12 * i,
                entries@.len() == i,
                forall|j: int| 0 <= j < i ==> {
                    &&& (#[trigger] entries@[j]).first_chunk == be32(data@, p + 8 + 12 * j)
                    &&& entries@[j].samples_per_chunk == be32(data@, p + 12 + 12 * j)
                    &&& entries@[j].sample_description_index == be32(data@, p + 16 + 12 * j)
                    &&& entries@[j].first_sample == 0
                },
            decreases count - i,
        {
            let first_chunk = read_u32(data, pos)?;
            let samples_per_chunk = read_u32(data, pos)?;
            let sample_description_index = read_u32(data, pos)?;
            entries.push(StscEntry { first_chunk, samples_per_chunk, sample_description_index, first_sample: 0 });
            i = i + 1;
        }
        *pos = end;
        Ok(StscBox { version, flags, entries })
    }
}

/// Whether the body of `body` bytes at `p` reads as a box of this type.
pub open spec fn stss_read_ok(s: Seq<u8>, p: int, body: int) -> bool {
    !(body < 8) && !(!fits(s, p, body)) && !(!table_fits(body, 8, be32(s, p + 4) as int, 4))
}

/// Whether `x` is what the body of `body` bytes at `p` reads as.
#[verifier::opaque]
pub open spec fn stss_read_at(s: Seq<u8>, p: int, body: int, x: StssBox) -> bool {
    {
        &&& x.version == s[p]
        &&& x.flags == be24(s, p + 1)
        &&& x.entries@.len() == be32(s, p + 4)
        &&& forall|i: int| 0 <= i < x.entries@.len() ==> #[trigger] x.entries@[i] == be32(s, p + 8 + 4 * i)
    }
}

impl StssBox {
    /// Reads the body of an `stss` box whose header `header` was read just
    /// before the cursor.
    pub fn read_box(data: &[u8], pos: &mut usize, header: BoxHeader) -> (r: Result<StssBox, Error>)
        requires
            header.header_len <= header.size,
        ensures
            ({
                let body = header.size - header.header_len;
                let p = *old(pos) as int;
                if body < 8 {
                    r == Err::<StssBox, Error>(Error::InvalidData("invalid table size"))
                } else if !fits(data@, p, body) {
                    r == Err::<StssBox, Error>(Error::Io)
                } else if !table_fits(body, 8, be32(data@, p + 4) as int, 4) {
                    r == Err::<StssBox, Error>(Error::InvalidData("invalid table size"))
                } else {
                    &&& r is Ok
                    &&& r->Ok_0.version == data@[p]
                    &&& r->Ok_0.flags == be24(data@, p + 1)
                    &&& r->Ok_0.entries@.len() == be32(data@, p + 4)
                    &&& forall|i: int| 0 <= i < r->Ok_0.entries@.len() ==> #[trigger] r->Ok_0.entries@[i] == be32(data@, p + 8 + 4 * i)
                    &&& *final(pos) == p + body
                }
            }),
    {
        let (end, version, flags, count) = match read_table_head(data, pos, header, 4) {
            Ok(t) => t,
            Err(e) => return Err(e),
        };
        let entries = read_u32_list(data, pos, count);
        *pos = end;
        Ok(StssBox { version, flags, entries })
    }
}

/// Whether the body of `body` bytes at `p` reads as a box of this type.
pub open spec fn stco_read_ok(s: Seq<u8>, p: int, body: int) -> bool {
    !(body < 8) && !(!fits(s, p, body)) && !(!table_fits(body, 8, be32(s, p + 4) as int, 4))
}

/// Whether `x` is what the body of `body` bytes at `p` reads as.
#[verifier::opaque]
pub open spec fn stco_read_at(s: Seq<u8>, p: int, body: int, x: StcoBox) -> bool {
    {
        &&& x.version == s[p]
        &&& x.flags == be24(s, p + 1)
        &&& x.entries@.len() == be32(s, p + 4)
        &&& forall|i: int| 0 <= i < x.entries@.len() ==> #[trigger] x.entries@[i] == be32(s, p + 8 + 4 * i)
    }
}

impl StcoBox {
    /// Reads the body of an `stco` box whose header `header` was read just
    /// before the cursor.
    pub fn read_box(data: &[u8], pos: &mut usize, header: BoxHeader) -> (r: Result<StcoBox, Error>)
        requires
            header.header_len <= header.size,
        ensures
            ({
                let body = header.size - header.header_len;
                let p = *old(pos) as int;
                if body < 8 {
                    r == Err::<StcoBox, Error>(Error::InvalidData("invalid table size"))
                } else if !fits(data@, p, body) {
                    r == Err::<StcoBox, Error>(Error::Io)
                } else if !table_fits(body, 8, be32(data@, p + 4) as int, 4) {
                    r == Err::<StcoBox, Error>(Error::InvalidData("invalid table size"))
                } else {
                    &&& r is Ok
                    &&& r->Ok_0.version == data@[p]
                    &&& r->Ok_0.flags == be24(data@, p + 1)
                    &&& r->Ok_0.entries@.len() == be32(data@, p + 4)
                    &&& forall|i: int| 0 <= i < r->Ok_0.entries@.len() ==> #[trigger] r->Ok_0.entries@[i] == be32(data@, p + 8 + 4 * i)
                    &&& *final(pos) == p + body
                }
            }),
    {
        let (end, version, flags, count) = match read_table_head(data, pos, header, 4) {
            Ok(t) => t,
            Err(e) => return Err(e),
        };
        let entries = read_u32_list(data, pos, count);
        *pos = end;
        Ok(StcoBox { version, flags, entries })
    }
}

/// Whether the body of `body` bytes at `p` reads as a box of this type.
pub open spec fn co64_read_ok(s: Seq<u8>, p: int, body: int) -> bool {
    !(body < 8) && !(!fits(s, p, body)) && !(!table_fits(body, 8, be32(s, p + 4) as int, 8))
}

/// Whether `x` is what the body of `body` bytes at `p` reads as.
#[verifier::opaque]
pub open spec fn co64_read_at(s: Seq<u8>, p: int, body: int, x: Co64Box) -> bool {
    {
        &&& x.version == s[p]
        &&& x.flags == be24(s, p + 1)
        &&& x.entries@.len() == be32(s, p + 4)
        &&& forall|i: int| 0 <= i < x.entries@.len() ==> #[trigger] x.entries@[i] == be64(s, p + 8 + 8 * i)
    }
}

impl Co64Box {
    /// Reads the body of a `co64` box whose header `header` was read just
    /// before the cursor.
    pub fn read_box(data: &[u8], pos: &mut usize, header: BoxHeader) -> (r: Result<Co64Box, Error>)
        requires
            header.header_len <= header.size,
        ensures
            ({
                let body = header.size - header.header_len;
                let p = *old(pos) as int;
                if body < 8 {
                    r == Err::<Co64Box, Error>(Error::InvalidData("invalid table size"))
                } else if !fits(data@, p, body) {
                    r == Err::<Co64Box, Error>(Error::Io)
                } else if !table_fits(body, 8, be32(data@, p + 4) as int, 8) {
                    r == Err::<Co64Box, Error>(Error::InvalidData("invalid table size"))
                } else {
                    &&& r is Ok
                    &&& r->Ok_0.version == data@[p]
                    &&& r->Ok_0.flags == be24(data@, p + 1)
                    &&& r->Ok_0.entries@.len() == be32(data@, p + 4)
                    &&& forall|i: int| 0 <= i < r->Ok_0.entries@.len() ==> #[trigger] r->Ok_0.entries@[i] == be64(data@, p + 8 + 8 * i)
                    &&& *final(pos) == p + body
                }
            }),
    {
        let ghost p = *pos as int;
        let (end, version, flags, count) = match read_table_head(data, pos, header, 8) {
            Ok(t) => t,
            Err(e) => return Err(e),
        };
        let mut entries: Vec<u64> = Vec::new();
        let mut i: u32 = 0;
        while i < count
            invariant
                p + 8 + 8 * count <= end <= data@.len(),
                0 <= i <= count,
                *pos == p + 8 + 8 * i,
                entries@.len() == i,
                forall|j: int| 0 <= j < i ==> #[trigger] entries@[j] == be64(data@, p + 8 + 8 * j),
            decreases count - i,
        {
            let x = read_u64(data, pos)?;
            entries.push(x);
            i = i + 1;
        }
        *pos = end;
        Ok(Co64Box { version, flags, entries })
    }
}

/// Whether the body of `body` bytes at `p` reads as a box of this type.
pub open spec fn stsz_read_ok(s: Seq<u8>, p: int, body: int) -> bool {
    let common = be32(s, p + 4);
    let count = be32(s, p + 8);
    !(body < 12) && !(!fits(s, p, body)) && !(common == 0 && !table_fits(body, 12, count as int, 4))
}

/// Whether `x` is what the body of `body` bytes at `p` reads as.
#[verifier::opaque]
pub open spec fn stsz_read_at(s: Seq<u8>, p: int, body: int, x: StszBox) -> bool {
    let common = be32(s, p + 4);
    let count = be32(s, p + 8);
    {
        &&& x.version == s[p]
        &&& x.flags == be24(s, p + 1)
        &&& x.sample_size == common
        &&& x.sample_count == count
        &&& common != 0 ==> x.sample_sizes@.len() == 0
        &&& common == 0 ==> x.sample_sizes@.len() == count
        &&& forall|i: int| 0 <= i < x.sample_sizes@.len() ==> #[trigger] x.sample_sizes@[i] == be32(s, p + 12 + 4 * i)
    }
}

impl StszBox {
    /// Reads the body of an `stsz` box whose header `header` was read just
    /// before the cursor: sizes are listed only when the common size is 0.
    pub fn read_box(data: &[u8], pos: &mut usize, header: BoxHeader) -> (r: Result<StszBox, Error>)
        requires
            header.header_len <= header.size,
        ensures
            ({
                let body = header.size - header.header_len;
                let p = *old(pos) as int;
                let common = be32(data@, p + 4);
                let count = be32(data@, p + 8);
                if body < 12 {
                    r == Err::<StszBox, Error>(Error::InvalidData("invalid table size"))
                } else if !fits(data@, p, body) {
                    r == Err::<StszBox, Error>(Error::Io)
                } else if common == 0 && !table_fits(body, 12, count as int, 4) {
                    r == Err::<StszBox, Error>(Error::InvalidData("invalid table size"))
                } else {
                    &&& r is Ok
                    &&& r->Ok_0.version == data@[p]
                    &&& r->Ok_0.flags == be24(data@, p + 1)
                    &&& r->Ok_0.sample_size == common
                    &&& r->Ok_0.sample_count == count
                    &&& common != 0 ==> r->Ok_0.sample_sizes@.len() == 0
                    &&& common == 0 ==> r->Ok_0.sample_sizes@.len() == count
                    &&& forall|i: int| 0 <= i < r->Ok_0.sample_sizes@.len() ==> #[trigger] r->Ok_0.sample_sizes@[i] == be32(data@, p + 12 + 4 * i)
                    &&& *final(pos) == p + body
                }
            }),
    {
        let body = header.size - header.header_len;
        if body < 12 {
            return Err(Error::InvalidData("invalid table size"));
        }
        let end = match body_end(data, *pos, body) {
            Ok(e) => e,
            Err(e) => return Err(e),
        };
        let (version, flags) = read_box_header_ext(data, pos)?;
        let sample_size = read_u32(data, pos)?;
        let sample_count = read_u32(data, pos)?;
        let sample_sizes = if sample_size == 0 {
            if 12 + 4 * sample_count as u64 > body {
                return Err(Error::InvalidData("invalid table size"));
            }
            read_u32_list(data, pos, sample_count)
        } else {
            Vec::new()
        };
        *pos = end;
        Ok(StszBox { version, flags, sample_size, sample_count, sample_sizes })
    }
}

/// The `avc1` entry whose body starts at `p`.
pub open spec fn spec_avc1(s: Seq<u8>, p: int) -> Avc1Box {
    Avc1Box {
        data_reference_index: be16(s, p + 6),
        width: be16(s, p + 24),
        height: be16(s, p + 26),
        horizresolution: be32(s, p + 28),
        vertresolution: be32(s, p + 32),
        frame_count: be16(s, p + 40),
        depth: be16(s, p + 74),
    }
}

/// The `mp4a` entry whose body starts at `p`.
pub open spec fn spec_mp4a(s: Seq<u8>, p: int) -> Mp4aBox {
    Mp4aBox {
        data_reference_index: be16(s, p + 6),
        channelcount: be16(s, p + 16),
        samplesize: be16(s, p + 18),
        samplerate: be32(s, p + 24),
    }
}

/// Whether the body of `body` bytes at `p` reads as a box of this type.
pub open spec fn avc1_read_ok(s: Seq<u8>, p: int, body: int) -> bool {
    !(body < 78) && !(!fits(s, p, body))
}

/// Whether `x` is what the body of `body` bytes at `p` reads as.
pub open spec fn avc1_read_at(s: Seq<u8>, p: int, body: int, x: Avc1Box) -> bool {
    {
        &&& x == (spec_avc1(s, p))
    }
}

impl Avc1Box {
    /// Reads the body of an `avc1` sample entry whose header `header` was read
    /// just before the cursor; the configuration boxes after the fixed fields
    /// are skipped.
    pub fn read_box(data: &[u8], pos: &mut usize, header: BoxHeader) -> (r: Result<Avc1Box, Error>)
        requires
            header.header_len <= header.size,
        ensures
            ({
                let body = header.size - header.header_len;
                let p = *old(pos) as int;
                if body < 78 {
                    r == Err::<Avc1Box, Error>(Error::InvalidData("invalid avc1 size"))
                } else if !fits(data@, p, body) {
                    r == Err::<Avc1Box, Error>(Error::Io)
                } else {
                    &&& r == Ok::<Avc1Box, Error>(spec_avc1(data@, p))
                    &&& *final(pos) == p + body
                }
            }),
    {
        let body = header.size - header.header_len;
        if body < 78 {
            return Err(Error::InvalidData("invalid avc1 size"));
        }
        let end = match body_end(data, *pos, body) {
            Ok(e) => e,
            Err(e) => return Err(e),
        };
        let p = *pos;
        let b = Avc1Box {
            data_reference_index: u16_at(data, p + 6),
            width: u16_at(data, p + 24),
            height: u16_at(data, p + 26),
            horizresolution: u32_at(data, p + 28),
            vertresolution: u32_at(data, p + 32),
            frame_count: u16_at(data, p + 40),
            depth: u16_at(data, p + 74),
        };
        *pos = end;
        Ok(b)
    }
}

/// Whether the body of `body` bytes at `p` reads as a box of this type.
pub open spec fn mp4a_read_ok(s: Seq<u8>, p: int, body: int) -> bool {
    !(body < 28) && !(!fits(s, p, body))
}

/// Whether `x` is what the body of `body` bytes at `p` reads as.
pub open spec fn mp4a_read_at(s: Seq<u8>, p: int, body: int, x: Mp4aBox) -> bool {
    {
        &&& x == (spec_mp4a(s, p))
    }
}

impl Mp4aBox {
    /// Reads the body of an `mp4a` sample entry whose header `header` was read
    /// just before the cursor; the descriptor boxes after the fixed fields are
    /// skipped.
    pub fn read_box(data: &[u8], pos: &mut usize, header: BoxHeader) -> (r: Result<Mp4aBox, Error>)
        requires
            header.header_len <= header.size,
        ensures
            ({
                let body = header.size - header.header_len;
                let p = *old(pos) as int;
                if body < 28 {
                    r == Err::<Mp4aBox, Error>(Error::InvalidData("invalid mp4a size"))
                } else if !fits(data@, p, body) {
                    r == Err::<Mp4aBox, Error>(Error::Io)
                } else {
                    &&& r == Ok::<Mp4aBox, Error>(spec_mp4a(data@, p))
                    &&& *final(pos) == p + body
                }
            }),
    {
        let body = header.size - header.header_len;
        if body < 28 {
            return Err(Error::InvalidData("invalid mp4a size"));
        }
        let end = match body_end(data, *pos, body) {
            Ok(e) => e,
            Err(e) => return Err(e),
        };
        let p = *pos;
        let b = Mp4aBox {
            data_reference_index: u16_at(data, p + 6),
            channelcount: u16_at(data, p + 16),
            samplesize: u16_at(data, p + 18),
            samplerate: u32_at(data, p + 24),
        };
        *pos = end;
        Ok(b)
    }
}

/// What a child of a `stsd` box must satisfy: each known child must read.
pub open spec fn stsd_child(s: Seq<u8>, b: int, l: int, n: BoxType) -> bool {
    &&& (n == BoxType::Avc1Box ==> crate::stbl::avc1_read_ok(s, b, l))
    &&& (n == BoxType::Mp4aBox ==> crate::stbl::mp4a_read_ok(s, b, l))
}

/// The children condition of a `stsd` box.
pub open spec fn stsd_children() -> spec_fn(Seq<u8>, int, int, BoxType) -> bool {
    |s: Seq<u8>, b: int, l: int, n: BoxType| stsd_child(s, b, l, n)
}

/// Whether the body of `body` bytes at `p` reads as a `stsd` box: its children
/// lie within it and each known one reads.
pub open spec fn stsd_read_ok(s: Seq<u8>, p: int, body: int) -> bool {
    &&& body >= 8
    &&& fits(s, p, body)
    &&& children_ok(s, p + 8, p + body, stsd_children())
}

/// Whether `x` is what the body of `body` bytes at `p` reads as: each field
/// holds what its last child of that type reads as, and is empty without one.
pub open spec fn stsd_read_at(s: Seq<u8>, p: int, body: int, x: StsdBox) -> bool {
    &&& x.version == s[p]
    &&& x.flags == be24(s, p + 1)
    &&& x.entry_count == be32(s, p + 4)
    &&& match last_child(s, p + 8, p + body, BoxType::Avc1Box) {
        None => x.avc1 is None,
        Some(q) => x.avc1 is Some && crate::stbl::avc1_read_at(s, child_body(s, q), child_body_len(s, q), x.avc1->Some_0),
    }
    &&& match last_child(s, p + 8, p + body, BoxType::Mp4aBox) {
        None => x.mp4a is None,
        Some(q) => x.mp4a is Some && crate::stbl::mp4a_read_at(s, child_body(s, q), child_body_len(s, q), x.mp4a->Some_0),
    }
}

impl StsdBox {
    /// Type of the box.
    pub fn box_type(&self) -> (r: BoxType)
        ensures
            r == BoxType::StsdBox,
    {
        BoxType::StsdBox
    }

    /// Reads the body of a `stsd` box whose header `header` was read just
    /// before the cursor: each known child is read, the last of a type is
    /// kept, and unknown children are skipped.
    #[verifier::rlimit(60)]
    pub fn read_box(data: &[u8], pos: &mut usize, header: BoxHeader) -> (r: Result<StsdBox, Error>)
        requires
            header.header_len <= header.size,
        ensures
            ({
                let body = header.size - header.header_len;
                let p = *old(pos) as int;
                if body < 8 {
                    r == Err::<StsdBox, Error>(Error::InvalidData("invalid stsd size"))
                } else if !fits(data@, p, body) {
                    r == Err::<StsdBox, Error>(Error::Io)
                } else {
                    &&& r is Ok <==> stsd_read_ok(data@, p, body)
                    &&& r matches Ok(x) ==> stsd_read_at(data@, p, body, x) && *final(pos) == p + body
                }
            }),
    {
        let body = header.size - header.header_len;
        if body < 8 {
            return Err(Error::InvalidData("invalid stsd size"));
        }
        let end = match body_end(data, *pos, body) {
            Ok(e) => e,
            Err(e) => return Err(e),
        };
        let ghost p = *old(pos) as int;
        let (version, flags) = read_box_header_ext(data, pos)?;
        let entry_count = read_u32(data, pos)?;
        let mut b = StsdBox { version, flags, entry_count, avc1: None, mp4a: None };
        let ghost mut g_avc1: Option<int> = None;
        let ghost mut g_mp4a: Option<int> = None;
        while *pos < end
            invariant
                end <= data@.len(),
                end == p + body,
                p == *old(pos),
                body == header.size - header.header_len,
                fits(data@, p, body as int),
                b.version == data@[p],
                b.flags == be24(data@, p + 1),
                b.entry_count == be32(data@, p + 4),
                body >= 8,
                p + 8 <= *pos <= end,
                children_ok(data@, p + 8, end as int, stsd_children()) == children_ok(data@, *pos as int, end as int, stsd_children()),
                last_child(data@, p + 8, end as int, BoxType::Avc1Box) == match last_child(data@, *pos as int, end as int, BoxType::Avc1Box) {
                    Some(x) => Some(x),
                    None => g_avc1,
                },
                g_avc1 is None <==> b.avc1 is None,
                g_avc1 matches Some(q) ==> b.avc1 is Some && crate::stbl::avc1_read_at(data@, child_body(data@, q), child_body_len(data@, q), b.avc1->Some_0),
                last_child(data@, p + 8, end as int, BoxType::Mp4aBox) == match last_child(data@, *pos as int, end as int, BoxType::Mp4aBox) {
                    Some(x) => Some(x),
                    None => g_mp4a,
                },
                g_mp4a is None <==> b.mp4a is None,
                g_mp4a matches Some(q) ==> b.mp4a is Some && crate::stbl::mp4a_read_at(data@, child_body(data@, q), child_body_len(data@, q), b.mp4a->Some_0),
            decreases end - *pos,
        {
            let ghost q = *pos as int;
            let h = read_child_header(data, pos, end)?;
            let child_end = *pos - h.header_len as usize + h.size as usize;
            match h.name {
                BoxType::Avc1Box => {
                    b.avc1 = Some(Avc1Box::read_box(data, pos, h)?);
                    proof {
                        g_avc1 = Some(q);
                    }
                },
                BoxType::Mp4aBox => {
                    b.mp4a = Some(Mp4aBox::read_box(data, pos, h)?);
                    proof {
                        g_mp4a = Some(q);
                    }
                },
                _ => {},
            }
            *pos = child_end;
        }
        *pos = end;
        Ok(b)
    }
}

/// What a child of a `stbl` box must satisfy: each known child must read.
pub open spec fn stbl_child(s: Seq<u8>, b: int, l: int, n: BoxType) -> bool {
    &&& (n == BoxType::StsdBox ==> crate::stbl::stsd_read_ok(s, b, l))
    &&& (n == BoxType::SttsBox ==> crate::stbl::stts_read_ok(s, b, l))
    &&& (n == BoxType::CttsBox ==> crate::stbl::ctts_read_ok(s, b, l))
    &&& (n == BoxType::StssBox ==> crate::stbl::stss_read_ok(s, b, l))
    &&& (n == BoxType::StscBox ==> crate::stbl::stsc_read_ok(s, b, l))
    &&& (n == BoxType::StszBox ==> crate::stbl::stsz_read_ok(s, b, l))
    &&& (n == BoxType::StcoBox ==> crate::stbl::stco_read_ok(s, b, l))
    &&& (n == BoxType::Co64Box ==> crate::stbl::co64_read_ok(s, b, l))
}

/// The children condition of a `stbl` box.
pub open spec fn stbl_children() -> spec_fn(Seq<u8>, int, int, BoxType) -> bool {
    |s: Seq<u8>, b: int, l: int, n: BoxType| stbl_child(s, b, l, n)
}

/// Whether the body of `body` bytes at `p` reads as a `stbl` box: its children
/// lie within it and each known one reads.
pub open spec fn stbl_read_ok(s: Seq<u8>, p: int, body: int) -> bool {
    &&& fits(s, p, body)
    &&& children_ok(s, p, p + body, stbl_children())
}

/// Whether `x` is what the body of `body` bytes at `p` reads as: each field
/// holds what its last child of that type reads as, and is empty without one.
pub open spec fn stbl_read_at(s: Seq<u8>, p: int, body: int, x: StblBox) -> bool {
    &&& match last_child(s, p, p + body, BoxType::StsdBox) {
        None => x.stsd is None,
        Some(q) => x.stsd is Some && crate::stbl::stsd_read_at(s, child_body(s, q), child_body_len(s, q), x.stsd->Some_0),
    }
    &&& match last_child(s, p, p + body, BoxType::SttsBox) {
        None => x.stts is None,
        Some(q) => x.stts is Some && crate::stbl::stts_read_at(s, child_body(s, q), child_body_len(s, q), x.stts->Some_0),
    }
    &&& match last_child(s, p, p + body, BoxType::CttsBox) {
        None => x.ctts is None,
        Some(q) => x.ctts is Some && crate::stbl::ctts_read_at(s, child_body(s, q), child_body_len(s, q), x.ctts->Some_0),
    }
    &&& match last_child(s, p, p + body, BoxType::StssBox) {
        None => x.stss is None,
        Some(q) => x.stss is Some && crate::stbl::stss_read_at(s, child_body(s, q), child_body_len(s, q), x.stss->Some_0),
    }
    &&& match last_child(s, p, p + body, BoxType::StscBox) {
        None => x.stsc is None,
        Some(q) => x.stsc is Some && crate::stbl::stsc_read_at(s, child_body(s, q), child_body_len(s, q), x.stsc->Some_0),
    }
    &&& match last_child(s, p, p + body, BoxType::StszBox) {
        None => x.stsz is None,
        Some(q) => x.stsz is Some && crate::stbl::stsz_read_at(s, child_body(s, q), child_body_len(s, q), x.stsz->Some_0),
    }
    &&& match last_child(s, p, p + body, BoxType::StcoBox) {
        None => x.stco is None,
        Some(q) => x.stco is Some && crate::stbl::stco_read_at(s, child_body(s, q), child_body_len(s, q), x.stco->Some_0),
    }
    &&& match last_child(s, p, p + body, BoxType::Co64Box) {
        None => x.co64 is None,
        Some(q) => x.co64 is Some && crate::stbl::co64_read_at(s, child_body(s, q), child_body_len(s, q), x.co64->Some_0),
    }
}

/// Reads one child of a sample table into its field, given the child's
/// header `h` read just before the cursor.
#[verifier::rlimit(60)]
fn read_stbl_child(data: &[u8], pos: &mut usize, h: BoxHeader, b: &mut StblBox) -> (r: Result<(), Error>)
    requires
        h.header_len <= h.size,
        fits(data@, *old(pos) as int, h.size - h.header_len),
    ensures
        r is Ok <==> stbl_child(data@, *old(pos) as int, h.size - h.header_len, h.name),
        h.name == BoxType::StsdBox && r is Ok ==> final(b).stsd is Some
            && crate::stbl::stsd_read_at(data@, *old(pos) as int, h.size - h.header_len, final(b).stsd->Some_0),
        h.name != BoxType::StsdBox ==> final(b).stsd == old(b).stsd,
        h.name == BoxType::SttsBox && r is Ok ==> final(b).stts is Some
            && crate::stbl::stts_read_at(data@, *old(pos) as int, h.size - h.header_len, final(b).stts->Some_0),
        h.name != BoxType::SttsBox ==> final(b).stts == old(b).stts,
        h.name == BoxType::CttsBox && r is Ok ==> final(b).ctts is Some
            && crate::stbl::ctts_read_at(data@, *old(pos) as int, h.size - h.header_len, final(b).ctts->Some_0),
        h.name != BoxType::CttsBox ==> final(b).ctts == old(b).ctts,
        h.name == BoxType::StssBox && r is Ok ==> final(b).stss is Some
            && crate::stbl::stss_read_at(data@, *old(pos) as int, h.size - h.header_len, final(b).stss->Some_0),
        h.name != BoxType::StssBox ==> final(b).stss == old(b).stss,
        h.name == BoxType::StscBox && r is Ok ==> final(b).stsc is Some
            && crate::stbl::stsc_read_at(data@, *old(pos) as int, h.size - h.header_len, final(b).stsc->Some_0),
        h.name != BoxType::StscBox ==> final(b).stsc == old(b).stsc,
        h.name == BoxType::StszBox && r is Ok ==> final(b).stsz is Some
            && crate::stbl::stsz_read_at(data@, *old(pos) as int, h.size - h.header_len, final(b).stsz->Some_0),
        h.name != BoxType::StszBox ==> final(b).stsz == old(b).stsz,
        h.name == BoxType::StcoBox && r is Ok ==> final(b).stco is Some
            && crate::stbl::stco_read_at(data@, *old(pos) as int, h.size - h.header_len, final(b).stco->Some_0),
        h.name != BoxType::StcoBox ==> final(b).stco == old(b).stco,
        h.name == BoxType::Co64Box && r is Ok ==> final(b).co64 is Some
            && crate::stbl::co64_read_at(data@, *old(pos) as int, h.size - h.header_len, final(b).co64->Some_0),
        h.name != BoxType::Co64Box ==> final(b).co64 == old(b).co64,
{
    match h.name {
        BoxType::StsdBox => {
            b.stsd = Some(StsdBox::read_box(data, pos, h)?);
        },
        BoxType::SttsBox => {
            b.stts = Some(SttsBox::read_box(data, pos, h)?);
            proof {
                reveal(stts_read_at);
            }
        },
        BoxType::CttsBox => {
            b.ctts = Some(CttsBox::read_box(data, pos, h)?);
            proof {
                reveal(ctts_read_at);
            }
        },
        BoxType::StssBox => {
            b.stss = Some(StssBox::read_box(data, pos, h)?);
            proof {
                reveal(stss_read_at);
            }
        },
        BoxType::StscBox => {
            b.stsc = Some(StscBox::read_box(data, pos, h)?);
            proof {
                reveal(stsc_read_at);
            }
        },
        BoxType::StszBox => {
            b.stsz = Some(StszBox::read_box(data, pos, h)?);
            proof {
                reveal(stsz_read_at);
            }
        },
        BoxType::StcoBox => {
            b.stco = Some(StcoBox::read_box(data, pos, h)?);
            proof {
                reveal(stco_read_at);
            }
        },
        BoxType::Co64Box => {
            b.co64 = Some(Co64Box::read_box(data, pos, h)?);
            proof {
                reveal(co64_read_at);
            }
        },
        _ => {},
    }
    Ok(())
}

impl StblBox {
    /// A sample table with no children.
    pub fn new() -> (r: StblBox)
        ensures
            r.stsd is None && r.stts is None && r.ctts is None && r.stss is None,
            r.stsc is None && r.stsz is None && r.stco is None && r.co64 is None,
    {
        StblBox { stsd: None, stts: None, ctts: None, stss: None, stsc: None, stsz: None, stco: None, co64: None }
    }

    /// Reads the body of a `stbl` box whose header `header` was read just
    /// before the cursor: each known child is read, the last of a type is
    /// kept, and unknown children are skipped.
    #[verifier::rlimit(100)]
    #[verifier::spinoff_prover]
    pub fn read_box(data: &[u8], pos: &mut usize, header: BoxHeader) -> (r: Result<StblBox, Error>)
        requires
            header.header_len <= header.size,
        ensures
            ({
                let body = header.size - header.header_len;
                let p = *old(pos) as int;
                if !fits(data@, p, body) {
                    r == Err::<StblBox, Error>(Error::Io)
                } else {
                    &&& r is Ok <==> stbl_read_ok(data@, p, body)
                    &&& r matches Ok(x) ==> stbl_read_at(data@, p, body, x) && *final(pos) == p + body
                }
            }),
    {
        let body = header.size - header.header_len;
        let end = match body_end(data, *pos, body) {
            Ok(e) => e,
            Err(e) => return Err(e),
        };
        let ghost p = *old(pos) as int;
        let mut b = StblBox::new();
        let ghost mut g_stsd: Option<int> = None;
        let ghost mut g_stts: Option<int> = None;
        let ghost mut g_ctts: Option<int> = None;
        let ghost mut g_stss: Option<int> = None;
        let ghost mut g_stsc: Option<int> = None;
        let ghost mut g_stsz: Option<int> = None;
        let ghost mut g_stco: Option<int> = None;
        let ghost mut g_co64: Option<int> = None;
        while *pos < end
            invariant
                end <= data@.len(),
                end == p + body,
                p == *old(pos),
                body == header.size - header.header_len,
                fits(data@, p, body as int),
                p <= *pos <= end,
                children_ok(data@, p, end as int, stbl_children()) == children_ok(data@, *pos as int, end as int, stbl_children()),
                last_child(data@, p, end as int, BoxType::StsdBox) == match last_child(data@, *pos as int, end as int, BoxType::StsdBox) {
                    Some(x) => Some(x),
                    None => g_stsd,
                },
                g_stsd is None <==> b.stsd is None,
                g_stsd matches Some(q) ==> b.stsd is Some && crate::stbl::stsd_read_at(data@, child_body(data@, q), child_body_len(data@, q), b.stsd->Some_0),
                last_child(data@, p, end as int, BoxType::SttsBox) == match last_child(data@, *pos as int, end as int, BoxType::SttsBox) {
                    Some(x) => Some(x),
                    None => g_stts,
                },
                g_stts is None <==> b.stts is None,
                g_stts matches Some(q) ==> b.stts is Some && crate::stbl::stts_read_at(data@, child_body(data@, q), child_body_len(data@, q), b.stts->Some_0),
                last_child(data@, p, end as int, BoxType::CttsBox) == match last_child(data@, *pos as int, end as int, BoxType::CttsBox) {
                    Some(x) => Some(x),
                    None => g_ctts,
                },
                g_ctts is None <==> b.ctts is None,
                g_ctts matches Some(q) ==> b.ctts is Some && crate::stbl::ctts_read_at(data@, child_body(data@, q), child_body_len(data@, q), b.ctts->Some_0),
                last_child(data@, p, end as int, BoxType::StssBox) == match last_child(data@, *pos as int, end as int, BoxType::StssBox) {
                    Some(x) => Some(x),
                    None => g_stss,
                },
                g_stss is None <==> b.stss is None,
                g_stss matches Some(q) ==> b.stss is Some && crate::stbl::stss_read_at(data@, child_body(data@, q), child_body_len(data@, q), b.stss->Some_0),
                last_child(data@, p, end as int, BoxType::StscBox) == match last_child(data@, *pos as int, end as int, BoxType::StscBox) {
                    Some(x) => Some(x),
                    None => g_stsc,
                },
                g_stsc is None <==> b.stsc is None,
                g_stsc matches Some(q) ==> b.stsc is Some && crate::stbl::stsc_read_at(data@, child_body(data@, q), child_body_len(data@, q), b.stsc->Some_0),
                last_child(data@, p, end as int, BoxType::StszBox) == match last_child(data@, *pos as int, end as int, BoxType::StszBox) {
                    Some(x) => Some(x),
                    None => g_stsz,
                },
                g_stsz is None <==> b.stsz is None,
                g_stsz matches Some(q) ==> b.stsz is Some && crate::stbl::stsz_read_at(data@, child_body(data@, q), child_body_len(data@, q), b.stsz->Some_0),
                last_child(data@, p, end as int, BoxType::StcoBox) == match last_child(data@, *pos as int, end as int, BoxType::StcoBox) {
                    Some(x) => Some(x),
                    None => g_stco,
                },
                g_stco is None <==> b.stco is None,
                g_stco matches Some(q) ==> b.stco is Some && crate::stbl::stco_read_at(data@, child_body(data@, q), child_body_len(data@, q), b.stco->Some_0),
                last_child(data@, p, end as int, BoxType::Co64Box) == match last_child(data@, *pos as int, end as int, BoxType::Co64Box) {
                    Some(x) => Some(x),
                    None => g_co64,
                },
                g_co64 is None <==> b.co64 is None,
                g_co64 matches Some(q) ==> b.co64 is Some && crate::stbl::co64_read_at(data@, child_body(data@, q), child_body_len(data@, q), b.co64->Some_0),
            decreases end - *pos,
        {
            let ghost q = *pos as int;
            let h = read_child_header(data, pos, end)?;
            let child_end = *pos - h.header_len as usize + h.size as usize;
            let ghost bb = b;
            read_stbl_child(data, pos, h, &mut b)?;
            proof {
                if h.name == BoxType::StsdBox {
                    g_stsd = Some(q);
                }
                if h.name == BoxType::SttsBox {
                    g_stts = Some(q);
                }
                if h.name == BoxType::CttsBox {
                    g_ctts = Some(q);
                }
                if h.name == BoxType::StssBox {
                    g_stss = Some(q);
                }
                if h.name == BoxType::StscBox {
                    g_stsc = Some(q);
                }
                if h.name == BoxType::StszBox {
                    g_stsz = Some(q);
                }
                if h.name == BoxType::StcoBox {
                    g_stco = Some(q);
                }
                if h.name == BoxType::Co64Box {
                    g_co64 = Some(q);
                }
            }
            *pos = child_end;
        }
        *pos = end;
        Ok(b)
    }
}

} // verus!
