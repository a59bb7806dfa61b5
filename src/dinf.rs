//! The data information box and its data reference table of `url ` entries.

use vstd::prelude::*;
use vstd::utf8::{encode_utf8, valid_utf8};
use crate::types::{BoxType, Error};
use crate::bytes::{be32, copy_range, fits, put_u32, read_u32, utf8_string};
use crate::header::{
    BoxHeader, be24, body_end, boxed_size, read_box_header_ext, read_child_header, spec_ext_bytes,
    spec_header_bytes, spec_header_len, spec_read_header, write_box_header, write_box_header_ext,
};
use crate::header::{child_body, child_body_len, child_name, child_ok, children_ok, last_child, next_child};
use crate::header::{lemma_ext_round_trip, lemma_header_bytes_len, lemma_header_round_trip};

verus! {

/// A data reference entry; flag 0x1 marks media data in the same file.
#[derive(Debug, Clone, PartialEq, Eq)]
pub struct UrlBox {
    pub version: u8,
    pub flags: u32,
    pub location: String,
}

/// Data reference table.
#[derive(Debug, Clone, PartialEq, Eq)]
pub struct DrefBox {
    pub version: u8,
    pub flags: u32,
    pub data_entries: Vec<UrlBox>,
}

/// Data information container.
#[derive(Debug, Clone, PartialEq, Eq)]
pub struct DinfBox {
    pub dref: DrefBox,
}

/// The fields of a `url ` body of `body` bytes read at `p` of `s`.
pub open spec fn url_fields_at(s: Seq<u8>, p: int, body: int, u: UrlBox) -> bool {
    &&& u.version == s[p]
    &&& u.flags == be24(s, p + 1)
    &&& body <= 4 ==> u.location@.len() == 0
    &&& body > 4 ==> encode_utf8(u.location@) == s.subrange(p + 4, p + body - 1)
}

/// Whether a `url ` body of `body` bytes at `p` reads: it holds version and
/// flags, lies in the source, and its location is valid UTF-8.
pub open spec fn url_ok(s: Seq<u8>, p: int, body: int) -> bool {
    &&& body >= 4
    &&& fits(s, p, body)
    &&& body > 4 ==> valid_utf8(s.subrange(p + 4, p + body - 1))
}

/// Whether the first `n` children from `q` to `end` read as the entries of a
/// data reference table: `url ` children must read, others are skipped.
pub open spec fn dref_children_ok(s: Seq<u8>, q: int, end: int, n: int) -> bool
    decreases end - q,
{
    if n <= 0 || q >= end {
        true
    } else if !child_ok(s, q, end) {
        false
    } else if child_name(s, q) == BoxType::UrlBox {
        url_ok(s, child_body(s, q), child_body_len(s, q)) && dref_children_ok(s, next_child(s, q), end, n - 1)
    } else {
        dref_children_ok(s, next_child(s, q), end, n - 1)
    }
}

/// Whether `v` holds the `url ` entries read, in file order, from the first
/// `n` children from `q` to `end`.
pub open spec fn dref_entries_at(s: Seq<u8>, q: int, end: int, n: int, v: Seq<UrlBox>) -> bool
    decreases end - q,
{
    if n <= 0 || q >= end {
        v.len() == 0
    } else if !child_ok(s, q, end) {
        false
    } else if child_name(s, q) == BoxType::UrlBox {
        &&& v.len() >= 1
        &&& url_fields_at(s, child_body(s, q), child_body_len(s, q), v[0])
        &&& dref_entries_at(s, next_child(s, q), end, n - 1, v.drop_first())
    } else {
        dref_entries_at(s, next_child(s, q), end, n - 1, v)
    }
}

/// Whether a `dref` body of `body` bytes at `p` reads.
pub open spec fn dref_ok(s: Seq<u8>, p: int, body: int) -> bool {
    &&& body >= 8
    &&& fits(s, p, body)
    &&& dref_children_ok(s, p + 8, p + body, be32(s, p + 4) as int)
}

/// The table read from a `dref` body of `body` bytes at `p`.
pub open spec fn dref_at(s: Seq<u8>, p: int, body: int, d: DrefBox) -> bool {
    &&& d.version == s[p]
    &&& d.flags == be24(s, p + 1)
    &&& dref_entries_at(s, p + 8, p + body, be32(s, p + 4) as int, d.data_entries@)
}

/// What a child of a `dinf` box must satisfy: a `dref` child must read.
pub open spec fn dinf_child(s: Seq<u8>, b: int, l: int, n: BoxType) -> bool {
    n == BoxType::DrefBox ==> dref_ok(s, b, l)
}

/// The children condition of a `dinf` box.
pub open spec fn dinf_children() -> spec_fn(Seq<u8>, int, int, BoxType) -> bool {
    |s: Seq<u8>, b: int, l: int, n: BoxType| dinf_child(s, b, l, n)
}

/// Whether a `dinf` body of `body` bytes at `p` reads: its children read and
/// one of them is a `dref`.
pub open spec fn dinf_ok(s: Seq<u8>, p: int, body: int) -> bool {
    &&& fits(s, p, body)
    &&& children_ok(s, p, p + body, dinf_children())
    &&& last_child(s, p, p + body, BoxType::DrefBox) is Some
}

/// The box read from a `dinf` body of `body` bytes at `p`: its last `dref`.
pub open spec fn dinf_at(s: Seq<u8>, p: int, body: int, d: DinfBox) -> bool {
    let q = last_child(s, p, p + body, BoxType::DrefBox)->Some_0;
    dref_at(s, child_body(s, q), child_body_len(s, q), d.dref)
}

impl UrlBox {
    /// The location's bytes.
    pub open spec fn location_bytes(&self) -> Seq<u8> {
        encode_utf8(self.location@)
    }

    /// Length of the body: version, flags, and the location with its
    /// terminating zero when there is one.
    pub open spec fn spec_body_len(&self) -> int {
        4 + if self.location_bytes().len() > 0 { self.location_bytes().len() as int + 1 } else { 0int }
    }

    /// Total size of the box as written.
    pub open spec fn spec_size(&self) -> int {
        self.spec_body_len() + spec_header_len(self.spec_body_len())
    }

    /// Whether the box's size fits in 64 bits.
    pub open spec fn size_fits(&self) -> bool {
        self.spec_body_len() + 16 <= u64::MAX
    }

    /// The bytes the box is written as.
    pub open spec fn spec_bytes(&self) -> Seq<u8> {
        spec_header_bytes(BoxType::UrlBox, self.spec_size() as u64) + spec_ext_bytes(self.version, self.flags)
            + if self.location_bytes().len() > 0 { self.location_bytes() + seq![0u8] } else { Seq::empty() }
    }

    /// An entry for media in the same file, with no location.
    pub fn default() -> (r: UrlBox)
        ensures
            r.version == 0,
            r.flags == 1,
            r.location@.len() == 0,
    {
        UrlBox { version: 0, flags: 1, location: String::new() }
    }

    /// Type of the box.
    pub fn get_type(&self) -> (r: BoxType)
        ensures
            r == BoxType::UrlBox,
    {
        BoxType::UrlBox
    }

    /// Total size of the box, header included.
    pub fn get_size(&self) -> (r: u64)
        requires
            self.size_fits(),
        ensures
            r == self.spec_size(),
    {
        let n = self.location.as_str().as_bytes().len() as u64;
        if n > 0 {
            boxed_size(4 + n + 1)
        } else {
            boxed_size(4)
        }
    }

    /// Reads the body of a `url ` box whose header `header` was read just
    /// before the cursor.
    pub fn read_box(data: &[u8], pos: &mut usize, header: BoxHeader) -> (r: Result<UrlBox, Error>)
        requires
            header.header_len <= header.size,
        ensures
            ({
                let body = header.size - header.header_len;
                let p = *old(pos) as int;
                if body < 4 {
                    r == Err::<UrlBox, Error>(Error::InvalidData("invalid url size"))
                } else if !fits(data@, p, body) {
                    r == Err::<UrlBox, Error>(Error::Io)
                } else if !url_ok(data@, p, body) {
                    r == Err::<UrlBox, Error>(Error::InvalidData("invalid url location"))
                } else {
                    &&& r is Ok
                    &&& url_fields_at(data@, p, body, r->Ok_0)
                    &&& *final(pos) == p + body
                }
            }),
    {
        let body = header.size - header.header_len;
        if body < 4 {
            return Err(Error::InvalidData("invalid url size"));
        }
        let end = match body_end(data, *pos, body) {
            Ok(e) => e,
            Err(e) => return Err(e),
        };
        let (version, flags) = match read_box_header_ext(data, pos) {
            Ok(v) => v,
            Err(e) => return Err(e),
        };
        let location = if end - *pos > 0 {
            let text = copy_range(data, *pos, end - 1);
            match utf8_string(text) {
                Some(s) => s,
                None => return Err(Error::InvalidData("invalid url location")),
            }
        } else {
            String::new()
        };
        *pos = end;
        Ok(UrlBox { version, flags, location })
    }

    /// Appends the box; yields its size, which is the number of bytes appended.
    pub fn write_box(&self, out: &mut Vec<u8>) -> (r: u64)
        requires
            self.size_fits(),
        ensures
            r == self.spec_size(),
            final(out)@ == old(out)@ + self.spec_bytes(),
            final(out)@.len() == old(out)@.len() + r,
    {
        let size = self.get_size();
        write_box_header(out, BoxType::UrlBox, size);
        write_box_header_ext(out, self.version, self.flags);
        let text = self.location.as_str().as_bytes();
        if text.len() > 0 {
            out.extend_from_slice(text);
            out.push(0);
        }
        proof {
            assert(final(out)@ =~= old(out)@ + self.spec_bytes());
        }
        size
    }
}

/// Sum of the sizes of a list of entries.
pub open spec fn entries_size(s: Seq<UrlBox>) -> int
    decreases s.len(),
{
    if s.len() == 0 {
        0
    } else {
        entries_size(s.drop_last()) + s.last().spec_size()
    }
}

/// The bytes of a list of entries, one after the other.
pub open spec fn entries_bytes(s: Seq<UrlBox>) -> Seq<u8>
    decreases s.len(),
{
    if s.len() == 0 {
        Seq::empty()
    } else {
        entries_bytes(s.drop_last()) + s.last().spec_bytes()
    }
}

pub proof fn lemma_entries_size_prefix(s: Seq<UrlBox>, i: int)
    requires
        0 <= i <= s.len(),
    ensures
        0 <= entries_size(s.subrange(0, i)) <= entries_size(s),
    decreases s.len(),
{
    if s.len() > 0 {
        if i == s.len() {
            assert(s.subrange(0, i) =~= s);
            lemma_entries_size_prefix(s.drop_last(), i - 1);
            assert(s.drop_last().subrange(0, i - 1) =~= s.drop_last());
        } else {
            lemma_entries_size_prefix(s.drop_last(), i);
            assert(s.drop_last().subrange(0, i) =~= s.subrange(0, i));
        }
    }
}

pub proof fn lemma_entries_bytes_len(s: Seq<UrlBox>)
    requires
        forall|i: int| 0 <= i < s.len() ==> #[trigger] s[i].size_fits(),
    ensures
        entries_bytes(s).len() == entries_size(s),
    decreases s.len(),
{
    if s.len() > 0 {
        lemma_entries_bytes_len(s.drop_last());
        assert(s.last().size_fits());
    }
}

impl DrefBox {
    /// Length of the body: version, flags, entry count and entries.
    pub open spec fn spec_body_len(&self) -> int {
        8 + entries_size(self.data_entries@)
    }

    /// Total size of the box as written.
    pub open spec fn spec_size(&self) -> int {
        self.spec_body_len() + spec_header_len(self.spec_body_len())
    }

    /// Whether the box's size fits in 64 bits and its entry count in 32.
    pub open spec fn size_fits(&self) -> bool {
        &&& self.spec_body_len() + 16 <= u64::MAX
        &&& self.data_entries@.len() <= u32::MAX
        &&& forall|i: int| 0 <= i < self.data_entries@.len() ==> #[trigger] self.data_entries@[i].size_fits()
    }

    /// The bytes the box is written as.
    pub open spec fn spec_bytes(&self) -> Seq<u8> {
        spec_header_bytes(BoxType::DrefBox, self.spec_size() as u64) + spec_ext_bytes(self.version, self.flags)
            + crate::bytes::bytes32(self.data_entries@.len() as u32) + entries_bytes(self.data_entries@)
    }

    /// A table of one entry for media in the same file.
    pub fn default() -> (r: DrefBox)
        ensures
            r.version == 0,
            r.flags == 0,
            r.data_entries@.len() == 1,
            r.data_entries@[0].flags == 1,
            r.data_entries@[0].location@.len() == 0,
    {
        let mut data_entries: Vec<UrlBox> = Vec::new();
        data_entries.push(UrlBox::default());
        DrefBox { version: 0, flags: 0, data_entries }
    }

    /// Type of the box.
    pub fn get_type(&self) -> (r: BoxType)
        ensures
            r == BoxType::DrefBox,
    {
        BoxType::DrefBox
    }

    /// Total size of the box, header included.
    pub fn get_size(&self) -> (r: u64)
        requires
            self.size_fits(),
        ensures
            r == self.spec_size(),
    {
        let mut total: u64 = 0;
        let mut i: usize = 0;
        while i < self.data_entries.len()
            invariant
                self.size_fits(),
                0 <= i <= self.data_entries@.len(),
                total == entries_size(self.data_entries@.subrange(0, i as int)),
            decreases self.data_entries@.len() - i,
        {
            proof {
                lemma_entries_size_prefix(self.data_entries@, i + 1);
                assert(self.data_entries@.subrange(0, i + 1).drop_last() =~= self.data_entries@.subrange(0, i as int));
                assert(self.data_entries@[i as int].size_fits());
            }
            total = total + self.data_entries[i].get_size();
            i = i + 1;
        }
        assert(self.data_entries@.subrange(0, i as int) =~= self.data_entries@);
        boxed_size(8 + total)
    }

    /// Reads the body of a `dref` box whose header `header` was read just
    /// before the cursor: up to the declared number of entries, keeping the
    /// `url ` ones in file order and skipping others.
    pub fn read_box(data: &[u8], pos: &mut usize, header: BoxHeader) -> (r: Result<DrefBox, Error>)
        requires
            header.header_len <= header.size,
        ensures
            ({
                let body = header.size - header.header_len;
                let p = *old(pos) as int;
                if body < 8 {
                    r == Err::<DrefBox, Error>(Error::InvalidData("invalid dref size"))
                } else if !fits(data@, p, body) {
                    r == Err::<DrefBox, Error>(Error::Io)
                } else {
                    &&& r is Ok <==> dref_ok(data@, p, body)
                    &&& r matches Ok(d) ==> dref_at(data@, p, body, d) && *final(pos) == p + body
                }
            }),
    {
        let body = header.size - header.header_len;
        if body < 8 {
            return Err(Error::InvalidData("invalid dref size"));
        }
        let end = match body_end(data, *pos, body) {
            Ok(e) => e,
            Err(e) => return Err(e),
        };
        let ghost p = *pos as int;
        let (version, flags) = match read_box_header_ext(data, pos) {
            Ok(v) => v,
            Err(e) => return Err(e),
        };
        let entry_count = match read_u32(data, pos) {
            Ok(v) => v,
            Err(e) => return Err(e),
        };
        let ghost n = entry_count as int;
        let mut data_entries: Vec<UrlBox> = Vec::new();
        let mut i: u32 = 0;
        while i < entry_count && *pos < end
            invariant
                end <= data@.len(),
                p + 8 <= *pos <= end,
                end == p + body,
                p == *old(pos),
                body >= 8,
                body == header.size - header.header_len,
                fits(data@, p, body as int),
                version == data@[p],
                flags == be24(data@, p + 1),
                n == crate::bytes::be32(data@, p + 4),
                n == entry_count,
                i <= entry_count,
                dref_children_ok(data@, p + 8, end as int, n) == dref_children_ok(data@, *pos as int, end as int, n - i),
                forall|w: Seq<UrlBox>| #[trigger] dref_entries_at(data@, *pos as int, end as int, n - i, w)
                    ==> dref_entries_at(data@, p + 8, end as int, n, data_entries@ + w),
            decreases entry_count - i,
        {
            let ghost q = *pos as int;
            let h = match read_child_header(data, pos, end) {
                Ok(h) => h,
                Err(e) => {
                    assert(!dref_children_ok(data@, q, end as int, n - i));
                    return Err(e);
                },
            };
            let child_end = *pos - h.header_len as usize + h.size as usize;
            assert(child_end == next_child(data@, q));
            match h.name {
                BoxType::UrlBox => {
                    let u = match UrlBox::read_box(data, pos, h) {
                        Ok(u) => u,
                        Err(e) => {
                            assert(!dref_children_ok(data@, q, end as int, n - i));
                            return Err(e);
                        },
                    };
                    let ghost before = data_entries@;
                    proof {
                        assert forall|w: Seq<UrlBox>| #[trigger] dref_entries_at(data@, child_end as int, end as int, n - i - 1, w)
                            implies dref_entries_at(data@, p + 8, end as int, n, before.push(u) + w) by {
                            let v = seq![u] + w;
                            assert(v.drop_first() =~= w);
                            assert(dref_entries_at(data@, q, end as int, n - i, v));
                            assert(before + v =~= before.push(u) + w);
                        }
                    }
                    data_entries.push(u);
                },
                _ => {
                    proof {
                        assert forall|w: Seq<UrlBox>| #[trigger] dref_entries_at(data@, child_end as int, end as int, n - i - 1, w)
                            implies dref_entries_at(data@, p + 8, end as int, n, data_entries@ + w) by {
                            assert(dref_entries_at(data@, q, end as int, n - i, w));
                        }
                    }
                },
            }
            *pos = child_end;
            i = i + 1;
        }
        proof {
            assert(dref_entries_at(data@, *pos as int, end as int, n - i, Seq::<UrlBox>::empty()));
            assert(data_entries@ + Seq::<UrlBox>::empty() =~= data_entries@);
        }
        *pos = end;
        Ok(DrefBox { version, flags, data_entries })
    }

    /// Appends the box; yields its size, which is the number of bytes appended.
    pub fn write_box(&self, out: &mut Vec<u8>) -> (r: u64)
        requires
            self.size_fits(),
        ensures
            r == self.spec_size(),
            final(out)@ == old(out)@ + self.spec_bytes(),
            final(out)@.len() == old(out)@.len() + r,
    {
        let size = self.get_size();
        write_box_header(out, BoxType::DrefBox, size);
        write_box_header_ext(out, self.version, self.flags);
        put_u32(out, self.data_entries.len() as u32);
        let ghost before = out@;
        let mut i: usize = 0;
        while i < self.data_entries.len()
            invariant
                self.size_fits(),
                0 <= i <= self.data_entries@.len(),
                out@ == before + entries_bytes(self.data_entries@.subrange(0, i as int)),
            decreases self.data_entries@.len() - i,
        {
            assert(self.data_entries@[i as int].size_fits());
            self.data_entries[i].write_box(out);
            proof {
                assert(self.data_entries@.subrange(0, i + 1).drop_last() =~= self.data_entries@.subrange(0, i as int));
            }
            i = i + 1;
        }
        proof {
            assert(self.data_entries@.subrange(0, i as int) =~= self.data_entries@);
            assert(out@ =~= old(out)@ + self.spec_bytes());
            lemma_entries_bytes_len(self.data_entries@);
        }
        size
    }
}

impl DinfBox {
    /// Total size of the box as written.
    pub open spec fn spec_size(&self) -> int {
        self.dref.spec_size() + spec_header_len(self.dref.spec_size())
    }

    /// Whether the box's size fits in 64 bits.
    pub open spec fn size_fits(&self) -> bool {
        self.dref.size_fits() && self.dref.spec_size() + 16 <= u64::MAX
    }

    /// The bytes the box is written as.
    pub open spec fn spec_bytes(&self) -> Seq<u8> {
        spec_header_bytes(BoxType::DinfBox, self.spec_size() as u64) + self.dref.spec_bytes()
    }

    /// Type of the box.
    pub fn get_type(&self) -> (r: BoxType)
        ensures
            r == BoxType::DinfBox,
    {
        BoxType::DinfBox
    }

    /// Total size of the box, header included.
    pub fn get_size(&self) -> (r: u64)
        requires
            self.size_fits(),
        ensures
            r == self.spec_size(),
    {
        boxed_size(self.dref.get_size())
    }

    /// Reads the body of a `dinf` box whose header `header` was read just
    /// before the cursor; its last `dref` child is kept, others are skipped.
    pub fn read_box(data: &[u8], pos: &mut usize, header: BoxHeader) -> (r: Result<DinfBox, Error>)
        requires
            header.header_len <= header.size,
        ensures
            ({
                let body = header.size - header.header_len;
                let p = *old(pos) as int;
                if !fits(data@, p, body) {
                    r == Err::<DinfBox, Error>(Error::Io)
                } else {
                    &&& r is Ok <==> dinf_ok(data@, p, body)
                    &&& children_ok(data@, p, p + body, dinf_children())
                        && last_child(data@, p, p + body, BoxType::DrefBox) is None
                        ==> r == Err::<DinfBox, Error>(Error::BoxNotFound(BoxType::DrefBox))
                    &&& r matches Ok(d) ==> dinf_at(data@, p, body, d) && *final(pos) == p + body
                }
            }),
    {
        let body = header.size - header.header_len;
        let end = match body_end(data, *pos, body) {
            Ok(e) => e,
            Err(e) => return Err(e),
        };
        let mut dref: Option<DrefBox> = None;
        let ghost p = *old(pos) as int;
        let ghost mut g: Option<int> = None;
        while *pos < end
            invariant
                end <= data@.len(),
                end == p + body,
                p == *old(pos),
                body == header.size - header.header_len,
                fits(data@, p, body as int),
                p <= *pos <= end,
                children_ok(data@, p, end as int, dinf_children()) == children_ok(data@, *pos as int, end as int, dinf_children()),
                last_child(data@, p, end as int, BoxType::DrefBox) == match last_child(data@, *pos as int, end as int, BoxType::DrefBox) {
                    Some(x) => Some(x),
                    None => g,
                },
                g is None <==> dref is None,
                g matches Some(q) ==> dref matches Some(d) && dref_at(data@, child_body(data@, q), child_body_len(data@, q), d),
            decreases end - *pos,
        {
            let ghost q = *pos as int;
            let h = read_child_header(data, pos, end)?;
            let child_end = *pos - h.header_len as usize + h.size as usize;
            match h.name {
                BoxType::DrefBox => {
                    dref = Some(DrefBox::read_box(data, pos, h)?);
                    proof {
                        g = Some(q);
                    }
                },
                _ => {},
            }
            *pos = child_end;
        }
        *pos = end;
        match dref {
            Some(dref) => Ok(DinfBox { dref }),
            None => Err(Error::BoxNotFound(BoxType::DrefBox)),
        }
    }

    /// Appends the box; yields its size, which is the number of bytes appended.
    pub fn write_box(&self, out: &mut Vec<u8>) -> (r: u64)
        requires
            self.size_fits(),
        ensures
            r == self.spec_size(),
            final(out)@ == old(out)@ + self.spec_bytes(),
            final(out)@.len() == old(out)@.len() + r,
    {
        let size = self.get_size();
        write_box_header(out, BoxType::DinfBox, size);
        self.dref.write_box(out);
        proof {
            assert(final(out)@ =~= old(out)@ + self.spec_bytes());
            lemma_header_bytes_len(BoxType::DinfBox, size);
        }
        size
    }
}

/// Writing a `url ` entry whose flags fit in 24 bits and reading it back
/// gives the same entry: the header reads back with the written size, the
/// body passes the reader's checks, and any entry that the reader can yield
/// from those bytes equals the one written.
#[verifier::rlimit(40)]
pub proof fn lemma_url_round_trip(u: UrlBox, back: UrlBox)
    requires
        u.size_fits(),
        u.flags < 0x100_0000,
    ensures
        ({
            let s = u.spec_bytes();
            let size = u.spec_size();
            let hl = spec_header_len(u.spec_body_len());
            let body = size - hl;
            &&& s.len() == size
            &&& spec_read_header(s, 0) == Ok::<BoxHeader, Error>(
                BoxHeader { name: BoxType::UrlBox, size: size as u64, header_len: hl as u64 },
            )
            &&& url_ok(s, hl, body)
            &&& url_fields_at(s, hl, body, back) ==> {
                &&& back.version == u.version
                &&& back.flags == u.flags
                &&& back.location@ == u.location@
            }
        }),
{
    broadcast use vstd::utf8::encode_utf8_valid_utf8, vstd::utf8::encode_utf8_decode_utf8;
    let s = u.spec_bytes();
    let size = u.spec_size();
    let hl = spec_header_len(u.spec_body_len());
    let hb = spec_header_bytes(BoxType::UrlBox, size as u64);
    let text = u.location_bytes();
    let tail = if text.len() > 0 { text + seq![0u8] } else { Seq::empty() };
    let rest = spec_ext_bytes(u.version, u.flags) + tail;
    lemma_header_bytes_len(BoxType::UrlBox, size as u64);
    assert(s =~= hb + rest);
    lemma_header_round_trip(BoxType::UrlBox, size as u64, rest);
    assert(s.subrange(hl, hl + 4) =~= spec_ext_bytes(u.version, u.flags));
    lemma_ext_round_trip(s, hl, u.version, u.flags);
    let body = size - hl;
    if text.len() > 0 {
        assert(s.subrange(hl + 4, hl + body - 1) =~= text);
        assert(valid_utf8(text));
    }
    assert(url_ok(s, hl, body));
    if url_fields_at(s, hl, body, back) {
        if text.len() > 0 {
            assert(s.subrange(hl + 4, hl + body - 1) =~= text);
            assert(back.location@ == vstd::utf8::decode_utf8(encode_utf8(back.location@)));
        } else {
            assert(u.location@ == vstd::utf8::decode_utf8(encode_utf8(u.location@)));
            assert(u.location@ =~= Seq::<char>::empty());
        }
    }
}

} // verus!
