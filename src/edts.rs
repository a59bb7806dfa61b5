//! The edit box and its edit list.

use vstd::prelude::*;
use crate::types::{BoxType, Error};
use crate::bytes::{be32, be64, bytes16, bytes32, bytes64, fits, put_u16, put_u32, put_u64, read_u16, read_u32, read_u64};
use crate::bytes::{be16, lemma_be16_bytes, lemma_be32_bytes, lemma_be64_bytes};
use crate::header::{
    BoxHeader, be24, body_end, boxed_size, read_box_header_ext, read_child_header, spec_ext_bytes,
    spec_header_bytes, spec_header_len, write_box_header, write_box_header_ext, lemma_header_bytes_len,
};
use crate::header::{lemma_ext_round_trip, lemma_header_round_trip, spec_read_header};
use crate::header::{child_body, child_body_len, children_ok, last_child};

verus! {

/// One edit: a segment of the media timeline and its playback rate.
#[derive(Debug, Clone, Copy, PartialEq, Eq, Structural)]
pub struct ElstEntry {
    pub segment_duration: u64,
    pub media_time: u64,
    pub media_rate: u16,
    pub media_rate_fraction: u16,
}

/// Edit list: 32-bit times in version 0, 64-bit times in version 1.
#[derive(Debug, Clone, PartialEq, Eq)]
pub struct ElstBox {
    pub version: u8,
    pub flags: u32,
    pub entries: Vec<ElstEntry>,
}

/// Edit container.
#[derive(Debug, Clone, PartialEq, Eq)]
pub struct EdtsBox {
    pub elst: Option<ElstBox>,
}

/// Bytes of one edit in a list of the given version.
pub open spec fn elst_entry_len(version: u8) -> int {
    if version == 1 { 20 } else { 12 }
}

/// The bytes of one edit.
pub open spec fn elst_entry_bytes(version: u8, e: ElstEntry) -> Seq<u8> {
    if version == 1 {
        bytes64(e.segment_duration) + bytes64(e.media_time) + bytes16(e.media_rate) + bytes16(e.media_rate_fraction)
    } else {
        bytes32(e.segment_duration as u32) + bytes32(e.media_time as u32) + bytes16(e.media_rate)
            + bytes16(e.media_rate_fraction)
    }
}

/// The bytes of a list of edits.
pub open spec fn elst_entries_bytes(version: u8, s: Seq<ElstEntry>) -> Seq<u8>
    decreases s.len(),
{
    if s.len() == 0 {
        Seq::empty()
    } else {
        elst_entries_bytes(version, s.drop_last()) + elst_entry_bytes(version, s.last())
    }
}

/// Edit `e` as read at `q` from a list of the given version.
pub open spec fn elst_entry_at(s: Seq<u8>, q: int, version: u8, e: ElstEntry) -> bool {
    if version == 1 {
        &&& e.segment_duration == be64(s, q)
        &&& e.media_time == be64(s, q + 8)
        &&& e.media_rate == be16(s, q + 16)
        &&& e.media_rate_fraction == be16(s, q + 18)
    } else {
        &&& e.segment_duration == be32(s, q) as u64
        &&& e.media_time == be32(s, q + 4) as u64
        &&& e.media_rate == be16(s, q + 8)
        &&& e.media_rate_fraction == be16(s, q + 10)
    }
}

pub proof fn lemma_elst_entries_len(version: u8, s: Seq<ElstEntry>)
    ensures
        elst_entries_bytes(version, s).len() == s.len() * elst_entry_len(version),
    decreases s.len(),
{
    if s.len() > 0 {
        lemma_elst_entries_len(version, s.drop_last());
        assert((s.len() - 1) * elst_entry_len(version) + elst_entry_len(version) == s.len() * elst_entry_len(version))
            by (nonlinear_arith);
    }
}

/// Whether the body of `body` bytes at `p` reads as a box of this type.
pub open spec fn elst_read_ok(s: Seq<u8>, p: int, body: int) -> bool {
    !(body < 8) && !(!fits(s, p, body)) && !(s[p] > 1) && !(8 + be32(s, p + 4) * elst_entry_len(s[p]) > body)
}

/// Whether `x` is what the body of `body` bytes at `p` reads as.
pub open spec fn elst_read_at(s: Seq<u8>, p: int, body: int, x: ElstBox) -> bool {
    {
        &&& x.version == s[p]
        &&& x.flags == be24(s, p + 1)
        &&& x.entries@.len() == be32(s, p + 4)
        &&& forall|i: int| 0 <= i < x.entries@.len() ==> elst_entry_at(
            s,
            p + 8 + i * elst_entry_len(s[p]),
            s[p],
            #[trigger] x.entries@[i],
        )
    }
}

impl ElstBox {
    /// Length of the body: version, flags, count and edits.
    pub open spec fn spec_body_len(&self) -> int {
        8 + self.entries@.len() * elst_entry_len(self.version)
    }

    /// Total size of the box as written.
    pub open spec fn spec_size(&self) -> int {
        self.spec_body_len() + spec_header_len(self.spec_body_len())
    }

    /// Whether the box can be written as it is: its size fits in 64 bits,
    /// its count in 32, and in version 0 its times in 32.
    pub open spec fn size_fits(&self) -> bool {
        &&& self.spec_body_len() + 16 <= u64::MAX
        &&& self.entries@.len() <= u32::MAX
        &&& self.version != 1 ==> forall|i: int| 0 <= i < self.entries@.len() ==>
            (#[trigger] self.entries@[i]).segment_duration <= u32::MAX && self.entries@[i].media_time <= u32::MAX
    }

    /// The bytes the box is written as.
    pub open spec fn spec_bytes(&self) -> Seq<u8> {
        spec_header_bytes(BoxType::ElstBox, self.spec_size() as u64) + spec_ext_bytes(self.version, self.flags)
            + bytes32(self.entries@.len() as u32) + elst_entries_bytes(self.version, self.entries@)
    }

    /// Total size of the box, header included.
    pub fn box_size(&self) -> (r: u64)
        requires
            self.size_fits(),
        ensures
            r == self.spec_size(),
    {
        let per: u64 = if self.version == 1 { 20 } else { 12 };
        assert(self.entries@.len() * per <= u64::MAX) by (nonlinear_arith)
            requires
                8 + self.entries@.len() * per + 16 <= u64::MAX,
        ;
        boxed_size(8 + self.entries.len() as u64 * per)
    }

    /// Reads the body of an `elst` box whose header `header` was read just
    /// before the cursor.
    pub fn read_box(data: &[u8], pos: &mut usize, header: BoxHeader) -> (r: Result<ElstBox, Error>)
        requires
            header.header_len <= header.size,
        ensures
            ({
                let body = header.size - header.header_len;
                let p = *old(pos) as int;
                if body < 8 {
                    r == Err::<ElstBox, Error>(Error::InvalidData("invalid elst size"))
                } else if !fits(data@, p, body) {
                    r == Err::<ElstBox, Error>(Error::Io)
                } else if data@[p] > 1 {
                    r == Err::<ElstBox, Error>(Error::UnsupportedBoxVersion(BoxType::ElstBox, data@[p]))
                } else if 8 + be32(data@, p + 4) * elst_entry_len(data@[p]) > body {
                    r == Err::<ElstBox, Error>(Error::InvalidData("invalid elst size"))
                } else {
                    &&& r is Ok
                    &&& r->Ok_0.version == data@[p]
                    &&& r->Ok_0.flags == be24(data@, p + 1)
                    &&& r->Ok_0.entries@.len() == be32(data@, p + 4)
                    &&& forall|i: int| 0 <= i < r->Ok_0.entries@.len() ==> elst_entry_at(
                        data@,
                        p + 8 + i * elst_entry_len(data@[p]),
                        data@[p],
                        #[trigger] r->Ok_0.entries@[i],
                    )
                    &&& *final(pos) == p + body
                }
            }),
    {
        let body = header.size - header.header_len;
        if body < 8 {
            return Err(Error::InvalidData("invalid elst size"));
        }
        let end = match body_end(data, *pos, body) {
            Ok(e) => e,
            Err(e) => return Err(e),
        };
        let ghost p = *pos as int;
        let (version, flags) = match read_box_header_ext(data, pos) {
            Ok(v) => v,
            Err(e) => return Err(e),
        };
        if version > 1 {
            return Err(Error::UnsupportedBoxVersion(BoxType::ElstBox, version));
        }
        let count = match read_u32(data, pos) {
            Ok(v) => v,
            Err(e) => return Err(e),
        };
        let per: u64 = if version == 1 { 20 } else { 12 };
        if 8 + count as u64 * per > body {
            return Err(Error::InvalidData("invalid elst size"));
        }
        let mut entries: Vec<ElstEntry> = Vec::new();
        let mut i: u32 = 0;
        while i < count
            invariant
                p == *old(pos),
                fits(data@, p, body as int),
                version == data@[p],
                per == elst_entry_len(version),
                8 + count * per <= body,
                0 <= i <= count,
                *pos == p + 8 + i * per,
                entries@.len() == i,
                forall|j: int| 0 <= j < i ==> elst_entry_at(data@, p + 8 + j * per, version, #[trigger] entries@[j]),
            decreases count - i,
        {
            assert(8 + i * per + per <= 8 + count * per) by (nonlinear_arith)
                requires
                    i < count,
                    per >= 0,
            ;
            let e = if version == 1 {
                let segment_duration = read_u64(data, pos)?;
                let media_time = read_u64(data, pos)?;
                let media_rate = read_u16(data, pos)?;
                let media_rate_fraction = read_u16(data, pos)?;
                ElstEntry { segment_duration, media_time, media_rate, media_rate_fraction }
            } else {
                let segment_duration = read_u32(data, pos)? as u64;
                let media_time = read_u32(data, pos)? as u64;
                let media_rate = read_u16(data, pos)?;
                let media_rate_fraction = read_u16(data, pos)?;
                ElstEntry { segment_duration, media_time, media_rate, media_rate_fraction }
            };
            entries.push(e);
            assert((i + 1) * per == i * per + per) by (nonlinear_arith);
            i = i + 1;
        }
        *pos = end;
        Ok(ElstBox { version, flags, entries })
    }

    /// Appends the box; yields its size, which is the number of bytes appended.
    pub fn write_box(&self, out: &mut Vec<u8>) -> (r: u64)
        requires
            self.size_fits(),
        ensures
            r == self.spec_size(),
            final(out)@ == old(out)@ + self.spec_bytes(),
            final(out)@.len() == old(out)@.len() + r,
    {
        let size = self.box_size();
        write_box_header(out, BoxType::ElstBox, size);
        write_box_header_ext(out, self.version, self.flags);
        put_u32(out, self.entries.len() as u32);
        let ghost before = out@;
        let mut i: usize = 0;
        while i < self.entries.len()
            invariant
                self.size_fits(),
                0 <= i <= self.entries@.len(),
                out@ == before + elst_entries_bytes(self.version, self.entries@.subrange(0, i as int)),
            decreases self.entries@.len() - i,
        {
            let e = self.entries[i];
            if self.version == 1 {
                put_u64(out, e.segment_duration);
                put_u64(out, e.media_time);
            } else {
                put_u32(out, e.segment_duration as u32);
                put_u32(out, e.media_time as u32);
            }
            put_u16(out, e.media_rate);
            put_u16(out, e.media_rate_fraction);
            proof {
                assert(self.entries@.subrange(0, i + 1).drop_last() =~= self.entries@.subrange(0, i as int));
                assert(out@ =~= before + elst_entries_bytes(self.version, self.entries@.subrange(0, i + 1)));
            }
            i = i + 1;
        }
        proof {
            assert(self.entries@.subrange(0, i as int) =~= self.entries@);
            assert(out@ =~= old(out)@ + self.spec_bytes());
            lemma_elst_entries_len(self.version, self.entries@);
            lemma_header_bytes_len(BoxType::ElstBox, size);
        }
        size
    }
}

/// What a child of a `edts` box must satisfy: each known child must read.
pub open spec fn edts_child(s: Seq<u8>, b: int, l: int, n: BoxType) -> bool {
    &&& (n == BoxType::ElstBox ==> crate::edts::elst_read_ok(s, b, l))
}

/// The children condition of a `edts` box.
pub open spec fn edts_children() -> spec_fn(Seq<u8>, int, int, BoxType) -> bool {
    |s: Seq<u8>, b: int, l: int, n: BoxType| edts_child(s, b, l, n)
}

/// Whether the body of `body` bytes at `p` reads as a `edts` box: its children
/// lie within it and each known one reads.
pub open spec fn edts_read_ok(s: Seq<u8>, p: int, body: int) -> bool {
    &&& fits(s, p, body)
    &&& children_ok(s, p, p + body, edts_children())
}

/// Whether `x` is what the body of `body` bytes at `p` reads as: each field
/// holds what its last child of that type reads as, and is empty without one.
pub open spec fn edts_read_at(s: Seq<u8>, p: int, body: int, x: EdtsBox) -> bool {
    &&& match last_child(s, p, p + body, BoxType::ElstBox) {
        None => x.elst is None,
        Some(q) => x.elst is Some && crate::edts::elst_read_at(s, child_body(s, q), child_body_len(s, q), x.elst->Some_0),
    }
}

impl EdtsBox {
    /// An edit box without an edit list.
    pub fn new() -> (r: EdtsBox)
        ensures
            r.elst is None,
    {
        EdtsBox { elst: None }
    }

    /// Length of the body: the edit list, if any.
    pub open spec fn spec_body_len(&self) -> int {
        match self.elst {
            Some(e) => e.spec_size(),
            None => 0,
        }
    }

    /// Total size of the box as written.
    pub open spec fn spec_size(&self) -> int {
        self.spec_body_len() + spec_header_len(self.spec_body_len())
    }

    /// Whether the box can be written as it is.
    pub open spec fn size_fits(&self) -> bool {
        self.elst matches Some(e) ==> e.size_fits() && e.spec_size() + 16 <= u64::MAX
    }

    /// The bytes the box is written as.
    pub open spec fn spec_bytes(&self) -> Seq<u8> {
        spec_header_bytes(BoxType::EdtsBox, self.spec_size() as u64) + match self.elst {
            Some(e) => e.spec_bytes(),
            None => Seq::empty(),
        }
    }

    /// Type of the box.
    pub fn get_type(&self) -> (r: BoxType)
        ensures
            r == BoxType::EdtsBox,
    {
        BoxType::EdtsBox
    }

    /// Total size of the box, header included.
    pub fn get_size(&self) -> (r: u64)
        requires
            self.size_fits(),
        ensures
            r == self.spec_size(),
    {
        match &self.elst {
            Some(elst) => boxed_size(elst.box_size()),
            None => boxed_size(0),
        }
    }

    /// Reads the body of a `edts` box whose header `header` was read just
    /// before the cursor: each known child is read, the last of a type is
    /// kept, and unknown children are skipped.
    #[verifier::rlimit(60)]
    pub fn read_box(data: &[u8], pos: &mut usize, header: BoxHeader) -> (r: Result<EdtsBox, Error>)
        requires
            header.header_len <= header.size,
        ensures
            ({
                let body = header.size - header.header_len;
                let p = *old(pos) as int;
                if !fits(data@, p, body) {
                    r == Err::<EdtsBox, Error>(Error::Io)
                } else {
                    &&& r is Ok <==> edts_read_ok(data@, p, body)
                    &&& r matches Ok(x) ==> edts_read_at(data@, p, body, x) && *final(pos) == p + body
                }
            }),
    {
        let body = header.size - header.header_len;
        let end = match body_end(data, *pos, body) {
            Ok(e) => e,
            Err(e) => return Err(e),
        };
        let ghost p = *old(pos) as int;
        let mut b = EdtsBox::new();
        let ghost mut g_elst: Option<int> = None;
        while *pos < end
            invariant
                end <= data@.len(),
                end == p + body,
                p == *old(pos),
                body == header.size - header.header_len,
                fits(data@, p, body as int),
                p <= *pos <= end,
                children_ok(data@, p, end as int, edts_children()) == children_ok(data@, *pos as int, end as int, edts_children()),
                last_child(data@, p, end as int, BoxType::ElstBox) == match last_child(data@, *pos as int, end as int, BoxType::ElstBox) {
                    Some(x) => Some(x),
                    None => g_elst,
                },
                g_elst is None <==> b.elst is None,
                g_elst matches Some(q) ==> b.elst is Some && crate::edts::elst_read_at(data@, child_body(data@, q), child_body_len(data@, q), b.elst->Some_0),
            decreases end - *pos,
        {
            let ghost q = *pos as int;
            let h = read_child_header(data, pos, end)?;
            let child_end = *pos - h.header_len as usize + h.size as usize;
            match h.name {
                BoxType::ElstBox => {
                    b.elst = Some(ElstBox::read_box(data, pos, h)?);
                    proof {
                        g_elst = Some(q);
                    }
                },
                _ => {},
            }
            *pos = child_end;
        }
        *pos = end;
        Ok(b)
    }

    /// Appends the box; yields its size, which is the number of bytes appended.
    pub fn write_box(&self, out: &mut Vec<u8>) -> (r: u64)
        requires
            self.size_fits(),
        ensures
            r == self.spec_size(),
            final(out)@ == old(out)@ + self.spec_bytes(),
            final(out)@.len() == old(out)@.len() + r,
    {
        let size = self.get_size();
        write_box_header(out, BoxType::EdtsBox, size);
        match &self.elst {
            Some(elst) => {
                elst.write_box(out);
            },
            None => {},
        }
        proof {
            assert(final(out)@ =~= old(out)@ + self.spec_bytes());
            lemma_header_bytes_len(BoxType::EdtsBox, size);
        }
        size
    }
}

pub proof fn lemma_elst_entries_at(version: u8, s: Seq<ElstEntry>, i: int)
    requires
        0 <= i < s.len(),
    ensures
        elst_entries_bytes(version, s).subrange(i * elst_entry_len(version), (i + 1) * elst_entry_len(version))
            == elst_entry_bytes(version, s[i]),
    decreases s.len(),
{
    let per = elst_entry_len(version);
    let t = s.drop_last();
    lemma_elst_entries_len(version, t);
    if i < t.len() {
        lemma_elst_entries_at(version, t, i);
        assert((i + 1) * per <= t.len() * per) by (nonlinear_arith)
            requires
                i + 1 <= t.len(),
                per >= 0,
        ;
        assert(i * per >= 0) by (nonlinear_arith)
            requires
                i >= 0,
                per >= 0,
        ;
        assert(elst_entries_bytes(version, s).subrange(i * per, (i + 1) * per)
            =~= elst_entries_bytes(version, t).subrange(i * per, (i + 1) * per));
    } else {
        assert(i * per == t.len() * per);
        assert((i + 1) * per == t.len() * per + per) by (nonlinear_arith)
            requires
                i == t.len(),
        ;
        assert(elst_entries_bytes(version, s).subrange(i * per, (i + 1) * per) =~= elst_entry_bytes(version, s.last()));
    }
}

/// An edit written in a list of the given version reads back as written.
pub proof fn lemma_elst_entry_round_trip(s: Seq<u8>, q: int, version: u8, e: ElstEntry, back: ElstEntry)
    requires
        0 <= q,
        q + elst_entry_len(version) <= s.len(),
        s.subrange(q, q + elst_entry_len(version)) == elst_entry_bytes(version, e),
        version != 1 ==> e.segment_duration <= u32::MAX && e.media_time <= u32::MAX,
        elst_entry_at(s, q, version, back),
    ensures
        back == e,
{
    let t = s.subrange(q, q + elst_entry_len(version));
    if version == 1 {
        assert(s.subrange(q, q + 8) =~= t.subrange(0, 8));
        assert(s.subrange(q + 8, q + 16) =~= t.subrange(8, 16));
        assert(s.subrange(q + 16, q + 18) =~= t.subrange(16, 18));
        assert(s.subrange(q + 18, q + 20) =~= t.subrange(18, 20));
        assert(t.subrange(0, 8) =~= bytes64(e.segment_duration));
        assert(t.subrange(8, 16) =~= bytes64(e.media_time));
        assert(t.subrange(16, 18) =~= bytes16(e.media_rate));
        assert(t.subrange(18, 20) =~= bytes16(e.media_rate_fraction));
        lemma_be64_bytes(s, q, e.segment_duration);
        lemma_be64_bytes(s, q + 8, e.media_time);
        lemma_be16_bytes(s, q + 16, e.media_rate);
        lemma_be16_bytes(s, q + 18, e.media_rate_fraction);
    } else {
        assert(s.subrange(q, q + 4) =~= t.subrange(0, 4));
        assert(s.subrange(q + 4, q + 8) =~= t.subrange(4, 8));
        assert(s.subrange(q + 8, q + 10) =~= t.subrange(8, 10));
        assert(s.subrange(q + 10, q + 12) =~= t.subrange(10, 12));
        assert(t.subrange(0, 4) =~= bytes32(e.segment_duration as u32));
        assert(t.subrange(4, 8) =~= bytes32(e.media_time as u32));
        assert(t.subrange(8, 10) =~= bytes16(e.media_rate));
        assert(t.subrange(10, 12) =~= bytes16(e.media_rate_fraction));
        lemma_be32_bytes(s, q, e.segment_duration as u32);
        lemma_be32_bytes(s, q + 4, e.media_time as u32);
        lemma_be16_bytes(s, q + 8, e.media_rate);
        lemma_be16_bytes(s, q + 10, e.media_rate_fraction);
    }
}

/// Writing an edit list of version 0 or 1 whose flags fit in 24 bits and
/// reading it back gives the same list: the header reads back with the
/// written size, the body passes the reader's checks, and each edit that the
/// reader can yield from those bytes equals the one written.
pub proof fn lemma_elst_round_trip(b: ElstBox, back: Seq<ElstEntry>)
    requires
        b.size_fits(),
        b.version <= 1,
        b.flags < 0x100_0000,
    ensures
        ({
            let s = b.spec_bytes();
            let size = b.spec_size();
            let hl = spec_header_len(b.spec_body_len());
            let body = size - hl;
            let per = elst_entry_len(b.version);
            &&& s.len() == size
            &&& spec_read_header(s, 0) == Ok::<BoxHeader, Error>(
                BoxHeader { name: BoxType::ElstBox, size: size as u64, header_len: hl as u64 },
            )
            &&& body >= 8 && fits(s, hl, body)
            &&& s[hl] == b.version && be24(s, hl + 1) == b.flags
            &&& be32(s, hl + 4) == b.entries@.len()
            &&& 8 + be32(s, hl + 4) * per <= body
            &&& (back.len() == b.entries@.len() && forall|i: int| 0 <= i < back.len() ==> elst_entry_at(
                s,
                hl + 8 + i * per,
                b.version,
                #[trigger] back[i],
            )) ==> back == b.entries@
        }),
{
    let s = b.spec_bytes();
    let size = b.spec_size();
    let hl = spec_header_len(b.spec_body_len());
    let per = elst_entry_len(b.version);
    let n = b.entries@.len();
    let hb = spec_header_bytes(BoxType::ElstBox, size as u64);
    let list = elst_entries_bytes(b.version, b.entries@);
    let rest = spec_ext_bytes(b.version, b.flags) + bytes32(n as u32) + list;
    lemma_header_bytes_len(BoxType::ElstBox, size as u64);
    lemma_elst_entries_len(b.version, b.entries@);
    assert(s =~= hb + rest);
    lemma_header_round_trip(BoxType::ElstBox, size as u64, rest);
    assert(s.subrange(hl, hl + 4) =~= spec_ext_bytes(b.version, b.flags));
    lemma_ext_round_trip(s, hl, b.version, b.flags);
    assert(s.subrange(hl + 4, hl + 8) =~= bytes32(n as u32));
    lemma_be32_bytes(s, hl + 4, n as u32);
    if back.len() == n && forall|i: int| 0 <= i < back.len() ==> elst_entry_at(s, hl + 8 + i * per, b.version, #[trigger] back[i]) {
        assert forall|i: int| 0 <= i < n implies back[i] == b.entries@[i] by {
            lemma_elst_entries_at(b.version, b.entries@, i);
            assert((i + 1) * per == i * per + per) by (nonlinear_arith);
            assert((i + 1) * per <= n * per) by (nonlinear_arith)
                requires
                    i + 1 <= n,
                    per >= 0,
            ;
            assert(i * per >= 0) by (nonlinear_arith)
                requires
                    i >= 0,
                    per >= 0,
            ;
            assert(s.subrange(hl + 8 + i * per, hl + 8 + i * per + per) =~= list.subrange(i * per, (i + 1) * per));
            let e = b.entries@[i];
            assert(b.version != 1 ==> e.segment_duration <= u32::MAX && e.media_time <= u32::MAX);
            lemma_elst_entry_round_trip(s, hl + 8 + i * per, b.version, e, back[i]);
        }
        assert(back =~= b.entries@);
    }
}

} // verus!
