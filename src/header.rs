//! The box header: 32-bit size and type tag, or a size of 1 followed by a
//! 64-bit size, or a size of 0 meaning "to the end of the source".

use vstd::prelude::*;
use crate::types::{BoxType, Error, spec_box_type, spec_tag};
use crate::bytes::{lemma_be32_bytes, lemma_be64_bytes};
use crate::bytes::{be32, be64, bytes32, bytes64, fits, read_u32, read_u64, put_u32, put_u64};

verus! {

/// A parsed box header: type, total size including the header, and header length.
#[derive(Debug, Clone, Copy, PartialEq, Eq, Structural)]
pub struct BoxHeader {
    pub name: BoxType,
    pub size: u64,
    pub header_len: u64,
}

/// What reading a box header at `pos` of `s` yields.
pub open spec fn spec_read_header(s: Seq<u8>, pos: int) -> Result<BoxHeader, Error> {
    if !fits(s, pos, 8) {
        Err(Error::InvalidData("short header"))
    } else {
        let sz = be32(s, pos);
        let name = spec_box_type(be32(s, pos + 4));
        if sz == 1 {
            if !fits(s, pos, 16) {
                Err(Error::InvalidData("short header"))
            } else if be64(s, pos + 8) < 16 {
                Err(Error::InvalidData("box size smaller than its header"))
            } else {
                Ok(BoxHeader { name, size: be64(s, pos + 8), header_len: 16 })
            }
        } else if sz == 0 {
            Ok(BoxHeader { name, size: (s.len() - pos) as u64, header_len: 8 })
        } else if sz < 8 {
            Err(Error::InvalidData("box size smaller than its header"))
        } else {
            Ok(BoxHeader { name, size: sz as u64, header_len: 8 })
        }
    }
}

/// Length of the header written in front of a body of `body` bytes: the
/// compact form when the total fits in 32 bits, else the large form.
pub open spec fn spec_header_len(body: int) -> int {
    if body + 8 <= u32::MAX { 8 } else { 16 }
}

/// The bytes of a header for a box of type `name` and total size `size`.
pub open spec fn spec_header_bytes(name: BoxType, size: u64) -> Seq<u8> {
    if size <= u32::MAX {
        bytes32(size as u32) + bytes32(spec_tag(name))
    } else {
        bytes32(1) + bytes32(spec_tag(name)) + bytes64(size)
    }
}

/// Total size of a box whose body has `body` bytes.
pub fn boxed_size(body: u64) -> (r: u64)
    requires
        body + 16 <= u64::MAX,
    ensures
        r == body + spec_header_len(body as int),
{
    if body <= 0xffff_fff7 {
        body + 8
    } else {
        body + 16
    }
}

/// Reads a box header at the cursor and moves past it.
pub fn read_box_header(data: &[u8], pos: &mut usize) -> (r: Result<BoxHeader, Error>)
    ensures
        r == spec_read_header(data@, *old(pos) as int),
        r matches Ok(h) ==> *final(pos) == *old(pos) + h.header_len && h.header_len <= h.size
            && (h.header_len == 8 || h.header_len == 16),
        r is Err ==> *final(pos) == *old(pos),
{
    let start = *pos;
    if !(*pos <= data.len() && data.len() - *pos >= 8) {
        return Err(Error::InvalidData("short header"));
    }
    let sz = match read_u32(data, pos) {
        Ok(v) => v,
        Err(e) => {
            *pos = start;
            return Err(e);
        },
    };
    let tag = match read_u32(data, pos) {
        Ok(v) => v,
        Err(e) => {
            *pos = start;
            return Err(e);
        },
    };
    let name = BoxType::from_tag(tag);
    if sz == 1 {
        if !(data.len() - start >= 16) {
            *pos = start;
            return Err(Error::InvalidData("short header"));
        }
        let large = match read_u64(data, pos) {
            Ok(v) => v,
            Err(e) => {
                *pos = start;
                return Err(e);
            },
        };
        if large < 16 {
            *pos = start;
            return Err(Error::InvalidData("box size smaller than its header"));
        }
        Ok(BoxHeader { name, size: large, header_len: 16 })
    } else if sz == 0 {
        Ok(BoxHeader { name, size: (data.len() - start) as u64, header_len: 8 })
    } else if sz < 8 {
        *pos = start;
        Err(Error::InvalidData("box size smaller than its header"))
    } else {
        Ok(BoxHeader { name, size: sz as u64, header_len: 8 })
    }
}

/// Appends the header of a box of type `name` and total size `size`.
pub fn write_box_header(out: &mut Vec<u8>, name: BoxType, size: u64)
    ensures
        final(out)@ == old(out)@ + spec_header_bytes(name, size),
{
    if size <= 0xffff_ffff {
        put_u32(out, size as u32);
        put_u32(out, name.tag());
    } else {
        put_u32(out, 1);
        put_u32(out, name.tag());
        put_u64(out, size);
    }
    assert(final(out)@ =~= old(out)@ + spec_header_bytes(name, size));
}

/// Length of the bytes of a box header.
pub proof fn lemma_header_bytes_len(name: BoxType, size: u64)
    ensures
        spec_header_bytes(name, size).len() == if size <= u32::MAX { 8int } else { 16int },
{
}

/// A header written for a box of at least 8 bytes reads back as written,
/// whatever follows it.
pub proof fn lemma_header_round_trip(name: BoxType, size: u64, rest: Seq<u8>)
    requires
        size >= 8,
    ensures
        ({
            let s = spec_header_bytes(name, size) + rest;
            let hl: u64 = if size <= u32::MAX { 8 } else { 16 };
            &&& be32(s, 4) == spec_tag(name)
            &&& spec_read_header(s, 0) == Ok::<BoxHeader, Error>(
                BoxHeader { name: spec_box_type(spec_tag(name)), size, header_len: hl },
            )
        }),
{
    let s = spec_header_bytes(name, size) + rest;
    if size <= u32::MAX {
        assert(s.subrange(0, 4) =~= bytes32(size as u32));
        assert(s.subrange(4, 8) =~= bytes32(spec_tag(name)));
        lemma_be32_bytes(s, 0, size as u32);
        lemma_be32_bytes(s, 4, spec_tag(name));
    } else {
        assert(s.subrange(0, 4) =~= bytes32(1));
        assert(s.subrange(4, 8) =~= bytes32(spec_tag(name)));
        assert(s.subrange(8, 16) =~= bytes64(size));
        lemma_be32_bytes(s, 0, 1);
        lemma_be32_bytes(s, 4, spec_tag(name));
        lemma_be64_bytes(s, 8, size);
    }
}

/// The version byte and 24-bit flags of a full box, read at `p`.
pub open spec fn be24(s: Seq<u8>, p: int) -> u32 {
    ((s[p] as u32) * 65536 + (s[p + 1] as u32) * 256 + (s[p + 2] as u32)) as u32
}

/// The bytes of a full box's version and flags.
pub open spec fn spec_ext_bytes(version: u8, flags: u32) -> Seq<u8> {
    seq![version, (flags / 65536) as u8, ((flags / 256) % 256) as u8, (flags % 256) as u8]
}

/// Reads the version and 24-bit flags that open a full box.
pub fn read_box_header_ext(data: &[u8], pos: &mut usize) -> (r: Result<(u8, u32), Error>)
    ensures
        fits(data@, *old(pos) as int, 4) ==> r == Ok::<(u8, u32), Error>((data@[*old(pos) as int], be24(data@, *old(pos) + 1)))
            && *final(pos) == *old(pos) + 4,
        !fits(data@, *old(pos) as int, 4) ==> r == Err::<(u8, u32), Error>(Error::Io) && *final(pos) == *old(pos),
{
    if !(*pos <= data.len() && data.len() - *pos >= 4) {
        return Err(Error::Io);
    }
    let p = *pos;
    let version = data[p];
    let flags = (data[p + 1] as u32) * 65536 + (data[p + 2] as u32) * 256 + (data[p + 3] as u32);
    *pos = p + 4;
    Ok((version, flags))
}

/// Appends the version and the low 24 bits of the flags of a full box.
pub fn write_box_header_ext(out: &mut Vec<u8>, version: u8, flags: u32)
    ensures
        final(out)@ == old(out)@ + spec_ext_bytes(version, flags),
{
    out.push(version);
    out.push((flags / 65536) as u8);
    out.push(((flags / 256) % 256) as u8);
    out.push((flags % 256) as u8);
    assert(final(out)@ =~= old(out)@ + spec_ext_bytes(version, flags));
}

/// Version and flags below 2^24 read back as written.
pub proof fn lemma_ext_round_trip(s: Seq<u8>, p: int, version: u8, flags: u32)
    requires
        0 <= p,
        p + 4 <= s.len(),
        s.subrange(p, p + 4) == spec_ext_bytes(version, flags),
        flags < 0x100_0000,
    ensures
        s[p] == version,
        be24(s, p + 1) == flags,
{
    let t = s.subrange(p, p + 4);
    assert(s[p] == t[0] && s[p + 1] == t[1] && s[p + 2] == t[2] && s[p + 3] == t[3]);
}

/// Reads the header of the next child of a container whose body ends at
/// `end`, and checks that the child lies within that body.
pub fn read_child_header(data: &[u8], pos: &mut usize, end: usize) -> (r: Result<BoxHeader, Error>)
    requires
        *old(pos) < end <= data@.len(),
    ensures
        r is Ok <==> child_ok(data@, *old(pos) as int, end as int),
        r matches Ok(h) ==> {
            &&& spec_read_header(data@, *old(pos) as int) is Ok
            &&& h == spec_read_header(data@, *old(pos) as int)->Ok_0
            &&& *final(pos) == *old(pos) + h.header_len
            &&& *old(pos) + h.size <= end
            &&& 8 <= h.header_len <= h.size
        },
        r is Err ==> *final(pos) == *old(pos),
{
    let start = *pos;
    let h = read_box_header(data, pos)?;
    if h.size > (end - start) as u64 {
        *pos = start;
        return Err(Error::InvalidData("box exceeds its parent"));
    }
    Ok(h)
}

/// Checks that a box body of `body` bytes lies within the source from the
/// cursor on, and yields where it ends.
pub fn body_end(data: &[u8], pos: usize, body: u64) -> (r: Result<usize, Error>)
    ensures
        fits(data@, pos as int, body as int) ==> (r matches Ok(e) && e == pos + body),
        !fits(data@, pos as int, body as int) ==> r == Err::<usize, Error>(Error::Io),
{
    if pos <= data.len() && body <= (data.len() - pos) as u64 {
        Ok(pos + body as usize)
    } else {
        Err(Error::Io)
    }
}

/// Where the body of the box at `q` starts.
pub open spec fn child_body(s: Seq<u8>, q: int) -> int {
    q + spec_read_header(s, q)->Ok_0.header_len
}

/// Length of the body of the box at `q`.
pub open spec fn child_body_len(s: Seq<u8>, q: int) -> int {
    spec_read_header(s, q)->Ok_0.size - spec_read_header(s, q)->Ok_0.header_len
}

/// Whether a child box header reads at `q` and the child ends by `end`.
pub open spec fn child_ok(s: Seq<u8>, q: int, end: int) -> bool {
    &&& spec_read_header(s, q) is Ok
    &&& spec_read_header(s, q)->Ok_0.size >= 8
    &&& q + spec_read_header(s, q)->Ok_0.size <= end
}

/// Type of the box at `q`.
pub open spec fn child_name(s: Seq<u8>, q: int) -> BoxType {
    spec_read_header(s, q)->Ok_0.name
}

/// Where the box after the one at `q` starts.
pub open spec fn next_child(s: Seq<u8>, q: int) -> int {
    q + spec_read_header(s, q)->Ok_0.size
}

/// Whether the children from `q` to `end` all have headers that read and lie
/// within `end`, and each satisfies `ok` (given its body start, body length
/// and type).
pub open spec fn children_ok(s: Seq<u8>, q: int, end: int, ok: spec_fn(Seq<u8>, int, int, BoxType) -> bool) -> bool
    decreases end - q,
{
    if q >= end {
        true
    } else if !child_ok(s, q, end) {
        false
    } else {
        ok(s, child_body(s, q), child_body_len(s, q), child_name(s, q)) && children_ok(s, next_child(s, q), end, ok)
    }
}

/// Position of the last child of type `name` among the children from `q` to `end`.
pub open spec fn last_child(s: Seq<u8>, q: int, end: int, name: BoxType) -> Option<int>
    decreases end - q,
{
    if q >= end || !child_ok(s, q, end) {
        None
    } else {
        match last_child(s, next_child(s, q), end, name) {
            Some(x) => Some(x),
            None => if child_name(s, q) == name { Some(q) } else { None },
        }
    }
}

} // verus!
