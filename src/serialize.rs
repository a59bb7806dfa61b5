//! Writing of the track tree: each box yields its size, recomputed from its
//! contents, and appends exactly that many bytes.

use vstd::prelude::*;
use vstd::string::StringSliceAdditionalSpecFns;
use crate::types::BoxType;
use crate::bytes::{bytes16, bytes32, bytes64, put_u16, put_u32, put_u64};
use crate::bytes::{lemma_be16_bytes, lemma_be32_bytes, lemma_be64_bytes};
use crate::header::{BoxHeader, lemma_ext_round_trip, lemma_header_round_trip, spec_ext_bytes, spec_read_header};
use crate::header::{boxed_size, spec_header_bytes, spec_header_len, write_box_header, write_box_header_ext, lemma_header_bytes_len};
use crate::stbl::{
    Avc1Box, Co64Box, CttsBox, Mp4aBox, StblBox, StcoBox, StscBox, StsdBox, StssBox, SttsBox, StszBox,
};
use crate::trak::{HdlrBox, Matrix, MdhdBox, MdiaBox, MinfBox, SmhdBox, TkhdBox, TrakBox, VmhdBox, spec_tkhd};
use crate::types::Error;

verus! {

/// Largest box size the track tree's containers take from a child.
pub const CHILD_MAX: u64 = 0xff_ffff_ffff;

/// Total size of a box whose body has `body` bytes.
pub open spec fn boxed(body: int) -> int {
    body + spec_header_len(body)
}

/// Appends the header of a box of type `name` whose body has `body` bytes;
/// yields the box's total size.
fn put_header(out: &mut Vec<u8>, name: BoxType, body: u64) -> (r: u64)
    requires
        body + 16 <= u64::MAX,
    ensures
        r == boxed(body as int),
        final(out)@ == old(out)@ + spec_header_bytes(name, r),
        spec_header_bytes(name, r).len() == r - body,
{
    let size = boxed_size(body);
    write_box_header(out, name, size);
    proof {
        lemma_header_bytes_len(name, size);
    }
    size
}

/// The bytes of a matrix.
pub open spec fn matrix_bytes(m: Matrix) -> Seq<u8> {
    bytes32(m.a) + bytes32(m.b) + bytes32(m.u) + bytes32(m.c) + bytes32(m.d) + bytes32(m.v) + bytes32(m.x)
        + bytes32(m.y) + bytes32(m.w)
}

fn put_matrix(out: &mut Vec<u8>, m: &Matrix)
    ensures
        final(out)@ == old(out)@ + matrix_bytes(*m),
{
    put_u32(out, m.a);
    put_u32(out, m.b);
    put_u32(out, m.u);
    put_u32(out, m.c);
    put_u32(out, m.d);
    put_u32(out, m.v);
    put_u32(out, m.x);
    put_u32(out, m.y);
    put_u32(out, m.w);
    assert(final(out)@ =~= old(out)@ + matrix_bytes(*m));
}

fn put_zeros(out: &mut Vec<u8>, n: usize)
    ensures
        final(out)@ == old(out)@ + Seq::new(n as nat, |i: int| 0u8),
{
    let mut i: usize = 0;
    while i < n
        invariant
            0 <= i <= n,
            out@ == old(out)@ + Seq::new(i as nat, |j: int| 0u8),
        decreases n - i,
    {
        out.push(0);
        i = i + 1;
        assert(out@ =~= old(out)@ + Seq::new(i as nat, |j: int| 0u8));
    }
}

/// The times and identifier of a track header as written.
pub open spec fn tkhd_times_bytes(k: TkhdBox) -> Seq<u8> {
    if k.version == 1 {
        bytes64(k.creation_time) + bytes64(k.modification_time) + bytes32(k.track_id) + bytes32(0)
            + bytes64(k.duration)
    } else {
        bytes32(k.creation_time as u32) + bytes32(k.modification_time as u32) + bytes32(k.track_id) + bytes32(0)
            + bytes32(k.duration as u32)
    }
}

/// The fields of a track header after its duration, as written.
pub open spec fn tkhd_tail_bytes(k: TkhdBox) -> Seq<u8> {
    bytes64(0) + bytes16(k.layer) + bytes16(k.alternate_group) + bytes16(k.volume) + bytes16(0)
        + matrix_bytes(k.matrix) + bytes32(k.width) + bytes32(k.height)
}

/// The body of a track header as written.
pub open spec fn tkhd_body_bytes(k: TkhdBox) -> Seq<u8> {
    spec_ext_bytes(k.version, k.flags) + tkhd_times_bytes(k) + tkhd_tail_bytes(k)
}

fn put_tkhd_times(out: &mut Vec<u8>, k: &TkhdBox)
    ensures
        final(out)@ == old(out)@ + tkhd_times_bytes(*k),
{
    if k.version == 1 {
        put_u64(out, k.creation_time);
        put_u64(out, k.modification_time);
        put_u32(out, k.track_id);
        put_u32(out, 0);
        put_u64(out, k.duration);
    } else {
        put_u32(out, k.creation_time as u32);
        put_u32(out, k.modification_time as u32);
        put_u32(out, k.track_id);
        put_u32(out, 0);
        put_u32(out, k.duration as u32);
    }
    assert(final(out)@ =~= old(out)@ + tkhd_times_bytes(*k));
}

fn put_tkhd_tail(out: &mut Vec<u8>, k: &TkhdBox)
    ensures
        final(out)@ == old(out)@ + tkhd_tail_bytes(*k),
{
    put_u64(out, 0);
    put_u16(out, k.layer);
    put_u16(out, k.alternate_group);
    put_u16(out, k.volume);
    put_u16(out, 0);
    put_matrix(out, &k.matrix);
    put_u32(out, k.width);
    put_u32(out, k.height);
    assert(final(out)@ =~= old(out)@ + tkhd_tail_bytes(*k));
}

impl TkhdBox {
    /// Body length: 64-bit times in version 1, 32-bit ones otherwise.
    pub open spec fn spec_body_len(&self) -> int {
        if self.version == 1 { 96 } else { 84 }
    }

    /// The bytes the box is written as.
    pub open spec fn spec_bytes(&self) -> Seq<u8> {
        spec_header_bytes(BoxType::TkhdBox, boxed(self.spec_body_len()) as u64) + tkhd_body_bytes(*self)
    }

    /// Total size of the box, header included.
    pub fn box_size(&self) -> (r: u64)
        ensures
            r == boxed(self.spec_body_len()),
            r <= CHILD_MAX,
    {
        boxed_size(if self.version == 1 { 96 } else { 84 })
    }

    /// Appends the box; in version 0 times keep their low 32 bits.
    pub fn write_box(&self, out: &mut Vec<u8>) -> (r: u64)
        ensures
            r == boxed(self.spec_body_len()),
            final(out)@ == old(out)@ + self.spec_bytes(),
            final(out)@.len() == old(out)@.len() + r,
            final(out)@.subrange(0, old(out)@.len() as int) == old(out)@,
    {
        let size = put_header(out, BoxType::TkhdBox, if self.version == 1 { 96 } else { 84 });
        write_box_header_ext(out, self.version, self.flags);
        put_tkhd_times(out, self);
        put_tkhd_tail(out, self);
        proof {
            assert(tkhd_times_bytes(*self).len() == if self.version == 1 { 32int } else { 20int });
            assert(final(out)@ =~= old(out)@ + self.spec_bytes());
            assert(final(out)@.subrange(0, old(out)@.len() as int) =~= old(out)@);
        }
        size
    }
}

/// The matrix written at `q` reads back as written.
pub proof fn lemma_matrix_round_trip(s: Seq<u8>, q: int, m: Matrix)
    requires
        0 <= q,
        q + 36 <= s.len(),
        s.subrange(q, q + 36) == matrix_bytes(m),
    ensures
        crate::trak::spec_matrix(s, q) == m,
{
    let t = s.subrange(q, q + 36);
    assert(s.subrange(q, q + 4) =~= t.subrange(0, 4) && t.subrange(0, 4) =~= bytes32(m.a));
    assert(s.subrange(q + 4, q + 8) =~= t.subrange(4, 8) && t.subrange(4, 8) =~= bytes32(m.b));
    assert(s.subrange(q + 8, q + 12) =~= t.subrange(8, 12) && t.subrange(8, 12) =~= bytes32(m.u));
    assert(s.subrange(q + 12, q + 16) =~= t.subrange(12, 16) && t.subrange(12, 16) =~= bytes32(m.c));
    assert(s.subrange(q + 16, q + 20) =~= t.subrange(16, 20) && t.subrange(16, 20) =~= bytes32(m.d));
    assert(s.subrange(q + 20, q + 24) =~= t.subrange(20, 24) && t.subrange(20, 24) =~= bytes32(m.v));
    assert(s.subrange(q + 24, q + 28) =~= t.subrange(24, 28) && t.subrange(24, 28) =~= bytes32(m.x));
    assert(s.subrange(q + 28, q + 32) =~= t.subrange(28, 32) && t.subrange(28, 32) =~= bytes32(m.y));
    assert(s.subrange(q + 32, q + 36) =~= t.subrange(32, 36) && t.subrange(32, 36) =~= bytes32(m.w));
    lemma_be32_bytes(s, q, m.a);
    lemma_be32_bytes(s, q + 4, m.b);
    lemma_be32_bytes(s, q + 8, m.u);
    lemma_be32_bytes(s, q + 12, m.c);
    lemma_be32_bytes(s, q + 16, m.d);
    lemma_be32_bytes(s, q + 20, m.v);
    lemma_be32_bytes(s, q + 24, m.x);
    lemma_be32_bytes(s, q + 28, m.y);
    lemma_be32_bytes(s, q + 32, m.w);
}

/// Writing a track header of version 0 or 1, with flags that fit in 24 bits
/// and, in version 0, times that fit in 32, and reading it back gives the
/// same header.
#[verifier::rlimit(50)]
pub proof fn lemma_tkhd_round_trip(k: TkhdBox)
    requires
        k.version <= 1,
        k.flags < 0x100_0000,
        k.version == 0 ==> k.creation_time <= u32::MAX && k.modification_time <= u32::MAX
            && k.duration <= u32::MAX,
    ensures
        ({
            let s = k.spec_bytes();
            let size = boxed(k.spec_body_len());
            &&& s.len() == size
            &&& spec_read_header(s, 0) == Ok::<BoxHeader, Error>(
                BoxHeader { name: BoxType::TkhdBox, size: size as u64, header_len: 8 },
            )
            &&& spec_tkhd(s, 8) == k
        }),
{
    let size = boxed(k.spec_body_len());
    let s = k.spec_bytes();
    let body = tkhd_body_bytes(k);
    lemma_header_bytes_len(BoxType::TkhdBox, size as u64);
    lemma_header_round_trip(BoxType::TkhdBox, size as u64, body);
    assert(s.subrange(8, 12) =~= spec_ext_bytes(k.version, k.flags));
    lemma_ext_round_trip(s, 8, k.version, k.flags);
    let r: int = if k.version == 1 { 44int } else { 32int };
    if k.version == 1 {
        assert(s.subrange(12, 20) =~= bytes64(k.creation_time));
        assert(s.subrange(20, 28) =~= bytes64(k.modification_time));
        assert(s.subrange(28, 32) =~= bytes32(k.track_id));
        assert(s.subrange(36, 44) =~= bytes64(k.duration));
        lemma_be64_bytes(s, 12, k.creation_time);
        lemma_be64_bytes(s, 20, k.modification_time);
        lemma_be32_bytes(s, 28, k.track_id);
        lemma_be64_bytes(s, 36, k.duration);
    } else {
        assert(s.subrange(12, 16) =~= bytes32(k.creation_time as u32));
        assert(s.subrange(16, 20) =~= bytes32(k.modification_time as u32));
        assert(s.subrange(20, 24) =~= bytes32(k.track_id));
        assert(s.subrange(28, 32) =~= bytes32(k.duration as u32));
        lemma_be32_bytes(s, 12, k.creation_time as u32);
        lemma_be32_bytes(s, 16, k.modification_time as u32);
        lemma_be32_bytes(s, 20, k.track_id);
        lemma_be32_bytes(s, 28, k.duration as u32);
    }
    assert(s.subrange(r + 8, r + 10) =~= bytes16(k.layer));
    assert(s.subrange(r + 10, r + 12) =~= bytes16(k.alternate_group));
    assert(s.subrange(r + 12, r + 14) =~= bytes16(k.volume));
    assert(s.subrange(r + 16, r + 52) =~= matrix_bytes(k.matrix));
    assert(s.subrange(r + 52, r + 56) =~= bytes32(k.width));
    assert(s.subrange(r + 56, r + 60) =~= bytes32(k.height));
    lemma_be16_bytes(s, r + 8, k.layer);
    lemma_be16_bytes(s, r + 10, k.alternate_group);
    lemma_be16_bytes(s, r + 12, k.volume);
    lemma_matrix_round_trip(s, r + 16, k.matrix);
    lemma_be32_bytes(s, r + 52, k.width);
    lemma_be32_bytes(s, r + 56, k.height);
}

/// Whether `b` holds three letters, each from 0x60 to 0x7f.
pub open spec fn language_letters(b: Seq<u8>) -> bool {
    b.len() == 3 && (forall|i: int| 0 <= i < 3 ==> 0x60 <= #[trigger] b[i] < 0x80)
}

/// The packed form of a three-letter lower-case language code: "und" for
/// anything else.
pub fn pack_language(text: &str) -> (r: u16)
    ensures
        language_letters(text.spec_bytes()) ==> r == (text.spec_bytes()[0] - 0x60) * 1024 + (text.spec_bytes()[1]
            - 0x60) * 32 + (text.spec_bytes()[2] - 0x60),
        !language_letters(text.spec_bytes()) ==> r == 0x55c4,
{
    let b = text.as_bytes();
    if b.len() == 3 && b[0] >= 0x60 && b[0] < 0x80 && b[1] >= 0x60 && b[1] < 0x80 && b[2] >= 0x60 && b[2] < 0x80 {
        let c0 = (b[0] - 0x60) as u16;
        let c1 = (b[1] - 0x60) as u16;
        let c2 = (b[2] - 0x60) as u16;
        c0 * 1024 + c1 * 32 + c2
    } else {
        0x55c4
    }
}

impl MdhdBox {
    /// Body length: 64-bit times in version 1, 32-bit ones otherwise.
    pub open spec fn spec_body_len(&self) -> int {
        if self.version == 1 { 36 } else { 24 }
    }

    /// Total size of the box, header included.
    pub fn box_size(&self) -> (r: u64)
        ensures
            r == boxed(self.spec_body_len()),
            r <= CHILD_MAX,
    {
        boxed_size(if self.version == 1 { 36 } else { 24 })
    }

    /// Appends the box; in version 0 times keep their low 32 bits.
    pub fn write_box(&self, out: &mut Vec<u8>) -> (r: u64)
        ensures
            r == boxed(self.spec_body_len()),
            final(out)@.len() == old(out)@.len() + r,
            final(out)@.subrange(0, old(out)@.len() as int) == old(out)@,
    {
        let size = put_header(out, BoxType::MdhdBox, if self.version == 1 { 36 } else { 24 });
        write_box_header_ext(out, self.version, self.flags);
        if self.version == 1 {
            put_u64(out, self.creation_time);
            put_u64(out, self.modification_time);
            put_u32(out, self.timescale);
            put_u64(out, self.duration);
        } else {
            put_u32(out, self.creation_time as u32);
            put_u32(out, self.modification_time as u32);
            put_u32(out, self.timescale);
            put_u32(out, self.duration as u32);
        }
        put_u16(out, pack_language(self.language.as_str()));
        put_u16(out, 0);
        assert(final(out)@.subrange(0, old(out)@.len() as int) =~= old(out)@);
        size
    }
}

impl HdlrBox {
    /// Body length: fixed fields and the name with its terminating zero.
    pub open spec fn spec_body_len(&self) -> int {
        25 + vstd::utf8::encode_utf8(self.name@).len() as int
    }

    /// Whether the box's size fits the track tree's bound.
    pub open spec fn size_fits(&self) -> bool {
        vstd::utf8::encode_utf8(self.name@).len() <= u32::MAX
    }

    /// Total size of the box, header included.
    pub fn box_size(&self) -> (r: u64)
        requires
            self.size_fits(),
        ensures
            r == boxed(self.spec_body_len()),
            r <= CHILD_MAX,
    {
        boxed_size(25 + self.name.as_str().as_bytes().len() as u64)
    }

    /// Appends the box.
    pub fn write_box(&self, out: &mut Vec<u8>) -> (r: u64)
        requires
            self.size_fits(),
        ensures
            r == boxed(self.spec_body_len()),
            final(out)@.len() == old(out)@.len() + r,
            final(out)@.subrange(0, old(out)@.len() as int) == old(out)@,
    {
        let name = self.name.as_str().as_bytes();
        let size = put_header(out, BoxType::HdlrBox, 25 + name.len() as u64);
        write_box_header_ext(out, self.version, self.flags);
        put_u32(out, 0);
        put_u32(out, self.handler_type.value);
        put_zeros(out, 12);
        out.extend_from_slice(name);
        out.push(0);
        assert(final(out)@.subrange(0, old(out)@.len() as int) =~= old(out)@);
        size
    }
}

impl VmhdBox {
    /// Total size of the box, header included.
    pub fn box_size(&self) -> (r: u64)
        ensures
            r == boxed(12),
            r <= CHILD_MAX,
    {
        boxed_size(12)
    }

    /// Appends the box.
    pub fn write_box(&self, out: &mut Vec<u8>) -> (r: u64)
        ensures
            r == boxed(12),
            final(out)@.len() == old(out)@.len() + r,
            final(out)@.subrange(0, old(out)@.len() as int) == old(out)@,
    {
        let size = put_header(out, BoxType::VmhdBox, 12);
        write_box_header_ext(out, self.version, self.flags);
        put_u16(out, self.graphics_mode);
        put_u16(out, self.op_red);
        put_u16(out, self.op_green);
        put_u16(out, self.op_blue);
        assert(final(out)@.subrange(0, old(out)@.len() as int) =~= old(out)@);
        size
    }
}

impl SmhdBox {
    /// Total size of the box, header included.
    pub fn box_size(&self) -> (r: u64)
        ensures
            r == boxed(8),
            r <= CHILD_MAX,
    {
        boxed_size(8)
    }

    /// Appends the box.
    pub fn write_box(&self, out: &mut Vec<u8>) -> (r: u64)
        ensures
            r == boxed(8),
            final(out)@.len() == old(out)@.len() + r,
            final(out)@.subrange(0, old(out)@.len() as int) == old(out)@,
    {
        let size = put_header(out, BoxType::SmhdBox, 8);
        write_box_header_ext(out, self.version, self.flags);
        put_u16(out, self.balance);
        put_u16(out, 0);
        assert(final(out)@.subrange(0, old(out)@.len() as int) =~= old(out)@);
        size
    }
}

impl SttsBox {
    /// Body length: version, flags, count and entries.
    pub open spec fn spec_body_len(&self) -> int {
        8 + 8 * (self.entries@.len() as int)
    }

    /// Whether the entry count fits in 32 bits.
    pub open spec fn size_fits(&self) -> bool {
        self.entries@.len() <= u32::MAX
    }

    /// Total size of the box, header included.
    pub fn box_size(&self) -> (r: u64)
        requires
            self.size_fits(),
        ensures
            r == boxed(self.spec_body_len()),
            r <= CHILD_MAX,
    {
        boxed_size(8 + 8 * self.entries.len() as u64)
    }

    /// Appends the box.
    pub fn write_box(&self, out: &mut Vec<u8>) -> (r: u64)
        requires
            self.size_fits(),
        ensures
            r == boxed(self.spec_body_len()),
            final(out)@.len() == old(out)@.len() + r,
            final(out)@.subrange(0, old(out)@.len() as int) == old(out)@,
    {
        let size = put_header(out, BoxType::SttsBox, 8 + 8 * self.entries.len() as u64);
        write_box_header_ext(out, self.version, self.flags);
        put_u32(out, self.entries.len() as u32);
        let ghost base = out@.len();
        let mut i: usize = 0;
        while i < self.entries.len()
            invariant
                0 <= i <= self.entries@.len(),
                out@.len() == base + 8 * i,
                base == old(out)@.len() + size - 8 - 8 * self.entries@.len() + 8,
                out@.subrange(0, old(out)@.len() as int) == old(out)@,
                base >= old(out)@.len(),
            decreases self.entries@.len() - i,
        {
            let e = self.entries[i];
            put_u32(out, e.sample_count);
            put_u32(out, e.sample_delta);
            assert(out@.subrange(0, old(out)@.len() as int) =~= old(out)@);
            i = i + 1;
        }
        size
    }
}

impl CttsBox {
    /// Body length: version, flags, count and entries.
    pub open spec fn spec_body_len(&self) -> int {
        8 + 8 * (self.entries@.len() as int)
    }

    /// Whether the entry count fits in 32 bits.
    pub open spec fn size_fits(&self) -> bool {
        self.entries@.len() <= u32::MAX
    }

    /// Total size of the box, header included.
    pub fn box_size(&self) -> (r: u64)
        requires
            self.size_fits(),
        ensures
            r == boxed(self.spec_body_len()),
            r <= CHILD_MAX,
    {
        boxed_size(8 + 8 * self.entries.len() as u64)
    }

    /// Appends the box.
    pub fn write_box(&self, out: &mut Vec<u8>) -> (r: u64)
        requires
            self.size_fits(),
        ensures
            r == boxed(self.spec_body_len()),
            final(out)@.len() == old(out)@.len() + r,
            final(out)@.subrange(0, old(out)@.len() as int) == old(out)@,
    {
        let size = put_header(out, BoxType::CttsBox, 8 + 8 * self.entries.len() as u64);
        write_box_header_ext(out, self.version, self.flags);
        put_u32(out, self.entries.len() as u32);
        let ghost base = out@.len();
        let mut i: usize = 0;
        while i < self.entries.len()
            invariant
                0 <= i <= self.entries@.len(),
                out@.len() == base + 8 * i,
                base == old(out)@.len() + size - 8 - 8 * self.entries@.len() + 8,
                out@.subrange(0, old(out)@.len() as int) == old(out)@,
                base >= old(out)@.len(),
            decreases self.entries@.len() - i,
        {
            let e = self.entries[i];
            put_u32(out, e.sample_count);
            put_u32(out, e.sample_offset as u32);
            assert(out@.subrange(0, old(out)@.len() as int) =~= old(out)@);
            i = i + 1;
        }
        size
    }
}

impl StssBox {
    /// Body length: version, flags, count and entries.
    pub open spec fn spec_body_len(&self) -> int {
        8 + 4 * (self.entries@.len() as int)
    }

    /// Whether the entry count fits in 32 bits.
    pub open spec fn size_fits(&self) -> bool {
        self.entries@.len() <= u32::MAX
    }

    /// Total size of the box, header included.
    pub fn box_size(&self) -> (r: u64)
        requires
            self.size_fits(),
        ensures
            r == boxed(self.spec_body_len()),
            r <= CHILD_MAX,
    {
        boxed_size(8 + 4 * self.entries.len() as u64)
    }

    /// Appends the box.
    pub fn write_box(&self, out: &mut Vec<u8>) -> (r: u64)
        requires
            self.size_fits(),
        ensures
            r == boxed(self.spec_body_len()),
            final(out)@.len() == old(out)@.len() + r,
            final(out)@.subrange(0, old(out)@.len() as int) == old(out)@,
    {
        let size = put_header(out, BoxType::StssBox, 8 + 4 * self.entries.len() as u64);
        write_box_header_ext(out, self.version, self.flags);
        put_u32(out, self.entries.len() as u32);
        let ghost base = out@.len();
        let mut i: usize = 0;
        while i < self.entries.len()
            invariant
                0 <= i <= self.entries@.len(),
                out@.len() == base + 4 * i,
                base == old(out)@.len() + size - 8 - 4 * self.entries@.len() + 8,
                out@.subrange(0, old(out)@.len() as int) == old(out)@,
                base >= old(out)@.len(),
            decreases self.entries@.len() - i,
        {
            let e = self.entries[i];
            put_u32(out, e);
            assert(out@.subrange(0, old(out)@.len() as int) =~= old(out)@);
            i = i + 1;
        }
        size
    }
}

impl StscBox {
    /// Body length: version, flags, count and entries.
    pub open spec fn spec_body_len(&self) -> int {
        8 + 12 * (self.entries@.len() as int)
    }

    /// Whether the entry count fits in 32 bits.
    pub open spec fn size_fits(&self) -> bool {
        self.entries@.len() <= u32::MAX
    }

    /// Total size of the box, header included.
    pub fn box_size(&self) -> (r: u64)
        requires
            self.size_fits(),
        ensures
            r == boxed(self.spec_body_len()),
            r <= CHILD_MAX,
    {
        boxed_size(8 + 12 * self.entries.len() as u64)
    }

    /// Appends the box.
    pub fn write_box(&self, out: &mut Vec<u8>) -> (r: u64)
        requires
            self.size_fits(),
        ensures
            r == boxed(self.spec_body_len()),
            final(out)@.len() == old(out)@.len() + r,
            final(out)@.subrange(0, old(out)@.len() as int) == old(out)@,
    {
        let size = put_header(out, BoxType::StscBox, 8 + 12 * self.entries.len() as u64);
        write_box_header_ext(out, self.version, self.flags);
        put_u32(out, self.entries.len() as u32);
        let ghost base = out@.len();
        let mut i: usize = 0;
        while i < self.entries.len()
            invariant
                0 <= i <= self.entries@.len(),
                out@.len() == base + 12 * i,
                base == old(out)@.len() + size - 8 - 12 * self.entries@.len() + 8,
                out@.subrange(0, old(out)@.len() as int) == old(out)@,
                base >= old(out)@.len(),
            decreases self.entries@.len() - i,
        {
            let e = self.entries[i];
            put_u32(out, e.first_chunk);
            put_u32(out, e.samples_per_chunk);
            put_u32(out, e.sample_description_index);
            assert(out@.subrange(0, old(out)@.len() as int) =~= old(out)@);
            i = i + 1;
        }
        size
    }
}

impl StcoBox {
    /// Body length: version, flags, count and entries.
    pub open spec fn spec_body_len(&self) -> int {
        8 + 4 * (self.entries@.len() as int)
    }

    /// Whether the entry count fits in 32 bits.
    pub open spec fn size_fits(&self) -> bool {
        self.entries@.len() <= u32::MAX
    }

    /// Total size of the box, header included.
    pub fn box_size(&self) -> (r: u64)
        requires
            self.size_fits(),
        ensures
            r == boxed(self.spec_body_len()),
            r <= CHILD_MAX,
    {
        boxed_size(8 + 4 * self.entries.len() as u64)
    }

    /// Appends the box.
    pub fn write_box(&self, out: &mut Vec<u8>) -> (r: u64)
        requires
            self.size_fits(),
        ensures
            r == boxed(self.spec_body_len()),
            final(out)@.len() == old(out)@.len() + r,
            final(out)@.subrange(0, old(out)@.len() as int) == old(out)@,
    {
        let size = put_header(out, BoxType::StcoBox, 8 + 4 * self.entries.len() as u64);
        write_box_header_ext(out, self.version, self.flags);
        put_u32(out, self.entries.len() as u32);
        let ghost base = out@.len();
        let mut i: usize = 0;
        while i < self.entries.len()
            invariant
                0 <= i <= self.entries@.len(),
                out@.len() == base + 4 * i,
                base == old(out)@.len() + size - 8 - 4 * self.entries@.len() + 8,
                out@.subrange(0, old(out)@.len() as int) == old(out)@,
                base >= old(out)@.len(),
            decreases self.entries@.len() - i,
        {
            let e = self.entries[i];
            put_u32(out, e);
            assert(out@.subrange(0, old(out)@.len() as int) =~= old(out)@);
            i = i + 1;
        }
        size
    }
}

impl Co64Box {
    /// Body length: version, flags, count and entries.
    pub open spec fn spec_body_len(&self) -> int {
        8 + 8 * (self.entries@.len() as int)
    }

    /// Whether the entry count fits in 32 bits.
    pub open spec fn size_fits(&self) -> bool {
        self.entries@.len() <= u32::MAX
    }

    /// Total size of the box, header included.
    pub fn box_size(&self) -> (r: u64)
        requires
            self.size_fits(),
        ensures
            r == boxed(self.spec_body_len()),
            r <= CHILD_MAX,
    {
        boxed_size(8 + 8 * self.entries.len() as u64)
    }

    /// Appends the box.
    pub fn write_box(&self, out: &mut Vec<u8>) -> (r: u64)
        requires
            self.size_fits(),
        ensures
            r == boxed(self.spec_body_len()),
            final(out)@.len() == old(out)@.len() + r,
            final(out)@.subrange(0, old(out)@.len() as int) == old(out)@,
    {
        let size = put_header(out, BoxType::Co64Box, 8 + 8 * self.entries.len() as u64);
        write_box_header_ext(out, self.version, self.flags);
        put_u32(out, self.entries.len() as u32);
        let ghost base = out@.len();
        let mut i: usize = 0;
        while i < self.entries.len()
            invariant
                0 <= i <= self.entries@.len(),
                out@.len() == base + 8 * i,
                base == old(out)@.len() + size - 8 - 8 * self.entries@.len() + 8,
                out@.subrange(0, old(out)@.len() as int) == old(out)@,
                base >= old(out)@.len(),
            decreases self.entries@.len() - i,
        {
            let e = self.entries[i];
            put_u64(out, e);
            assert(out@.subrange(0, old(out)@.len() as int) =~= old(out)@);
            i = i + 1;
        }
        size
    }
}

pub proof fn lemma_prefix_chain(a: Seq<u8>, b: Seq<u8>, c: Seq<u8>)
    requires
        a.len() <= b.len() <= c.len(),
        b.subrange(0, a.len() as int) == a,
        c.subrange(0, b.len() as int) == b,
    ensures
        c.subrange(0, a.len() as int) == a,
{
    assert(c.subrange(0, a.len() as int) =~= c.subrange(0, b.len() as int).subrange(0, a.len() as int));
}

impl StszBox {
    /// Body length: fixed fields, and the sizes when they vary.
    pub open spec fn spec_body_len(&self) -> int {
        12 + if self.sample_size == 0 { 4 * (self.sample_sizes@.len() as int) } else { 0 }
    }

    /// Whether the list of sizes fits in the 32-bit count.
    pub open spec fn size_fits(&self) -> bool {
        self.sample_sizes@.len() <= u32::MAX
    }

    /// Total size of the box, header included.
    pub fn box_size(&self) -> (r: u64)
        requires
            self.size_fits(),
        ensures
            r == boxed(self.spec_body_len()),
            r <= CHILD_MAX,
    {
        boxed_size(12 + if self.sample_size == 0 { 4 * self.sample_sizes.len() as u64 } else { 0 })
    }

    /// Appends the box.
    pub fn write_box(&self, out: &mut Vec<u8>) -> (r: u64)
        requires
            self.size_fits(),
        ensures
            r == boxed(self.spec_body_len()),
            final(out)@.len() == old(out)@.len() + r,
            final(out)@.subrange(0, old(out)@.len() as int) == old(out)@,
    {
        let body: u64 = 12 + if self.sample_size == 0 { 4 * self.sample_sizes.len() as u64 } else { 0 };
        let size = put_header(out, BoxType::StszBox, body);
        write_box_header_ext(out, self.version, self.flags);
        put_u32(out, self.sample_size);
        put_u32(out, self.sample_count);
        if self.sample_size == 0 {
            let ghost base = out@.len();
            let mut i: usize = 0;
            while i < self.sample_sizes.len()
                invariant
                    0 <= i <= self.sample_sizes@.len(),
                    out@.len() == base + 4 * i,
                    out@.subrange(0, old(out)@.len() as int) == old(out)@,
                    base >= old(out)@.len(),
                decreases self.sample_sizes@.len() - i,
            {
                put_u32(out, self.sample_sizes[i]);
                assert(out@.subrange(0, old(out)@.len() as int) =~= old(out)@);
                i = i + 1;
            }
        }
        assert(final(out)@.subrange(0, old(out)@.len() as int) =~= old(out)@);
        size
    }
}

impl Avc1Box {
    /// Appends the entry: its fixed fields, without configuration boxes.
    pub fn write_box(&self, out: &mut Vec<u8>) -> (r: u64)
        ensures
            r == boxed(78),
            final(out)@.len() == old(out)@.len() + r,
            final(out)@.subrange(0, old(out)@.len() as int) == old(out)@,
    {
        let size = put_header(out, BoxType::Avc1Box, 78);
        put_zeros(out, 6);
        put_u16(out, self.data_reference_index);
        put_zeros(out, 16);
        put_u16(out, self.width);
        put_u16(out, self.height);
        put_u32(out, self.horizresolution);
        put_u32(out, self.vertresolution);
        put_u32(out, 0);
        put_u16(out, self.frame_count);
        put_zeros(out, 32);
        put_u16(out, self.depth);
        put_u16(out, 0xffff);
        assert(final(out)@.subrange(0, old(out)@.len() as int) =~= old(out)@);
        size
    }
}

impl Mp4aBox {
    /// Appends the entry: its fixed fields, without descriptor boxes.
    pub fn write_box(&self, out: &mut Vec<u8>) -> (r: u64)
        ensures
            r == boxed(28),
            final(out)@.len() == old(out)@.len() + r,
            final(out)@.subrange(0, old(out)@.len() as int) == old(out)@,
    {
        let size = put_header(out, BoxType::Mp4aBox, 28);
        put_zeros(out, 6);
        put_u16(out, self.data_reference_index);
        put_zeros(out, 8);
        put_u16(out, self.channelcount);
        put_u16(out, self.samplesize);
        put_u16(out, 0);
        put_u16(out, 0);
        put_u32(out, self.samplerate);
        assert(final(out)@.subrange(0, old(out)@.len() as int) =~= old(out)@);
        size
    }
}

impl StsdBox {
    /// Body length: version, flags, count and the entries held.
    pub open spec fn spec_body_len(&self) -> int {
        8 + (if self.avc1 is Some { boxed(78) } else { 0 }) + (if self.mp4a is Some { boxed(28) } else { 0 })
    }

    /// Total size of the box, header included.
    pub fn box_size(&self) -> (r: u64)
        ensures
            r == boxed(self.spec_body_len()),
            r <= CHILD_MAX,
    {
        let a: u64 = if self.avc1.is_some() { 86 } else { 0 };
        let m: u64 = if self.mp4a.is_some() { 36 } else { 0 };
        boxed_size(8 + a + m)
    }

    /// Appends the box, with a count of the entries it holds.
    pub fn write_box(&self, out: &mut Vec<u8>) -> (r: u64)
        ensures
            r == boxed(self.spec_body_len()),
            final(out)@.len() == old(out)@.len() + r,
            final(out)@.subrange(0, old(out)@.len() as int) == old(out)@,
    {
        let a: u64 = if self.avc1.is_some() { 86 } else { 0 };
        let m: u64 = if self.mp4a.is_some() { 36 } else { 0 };
        let size = put_header(out, BoxType::StsdBox, 8 + a + m);
        write_box_header_ext(out, self.version, self.flags);
        let count: u32 = (if self.avc1.is_some() { 1u32 } else { 0u32 }) + (if self.mp4a.is_some() { 1u32 } else { 0u32 });
        put_u32(out, count);
        let ghost s0 = out@;
        assert(s0.subrange(0, old(out)@.len() as int) =~= old(out)@);
        if let Some(avc1) = &self.avc1 {
            avc1.write_box(out);
        }
        let ghost s1 = out@;
        proof {
            if self.avc1 is Some {
                lemma_prefix_chain(old(out)@, s0, s1);
            }
        }
        if let Some(mp4a) = &self.mp4a {
            mp4a.write_box(out);
        }
        proof {
            if self.mp4a is Some {
                lemma_prefix_chain(old(out)@, s1, out@);
            }
        }
        size
    }
}

impl StblBox {
    /// Body length: the children present.
    pub open spec fn spec_body_len(&self) -> int {
        (match self.stsd { Some(x) => boxed(x.spec_body_len()), None => 0 }) + (match self.stts { Some(x) => boxed(x.spec_body_len()), None => 0 }) + (match self.ctts { Some(x) => boxed(x.spec_body_len()), None => 0 }) + (match self.stss { Some(x) => boxed(x.spec_body_len()), None => 0 }) + (match self.stsc { Some(x) => boxed(x.spec_body_len()), None => 0 }) + (match self.stsz { Some(x) => boxed(x.spec_body_len()), None => 0 }) + (match self.stco { Some(x) => boxed(x.spec_body_len()), None => 0 }) + (match self.co64 { Some(x) => boxed(x.spec_body_len()), None => 0 })
    }

    /// Total size of the box as written.
    pub open spec fn spec_size(&self) -> int {
        boxed(self.spec_body_len())
    }

    /// Whether each child can be written.
    pub open spec fn size_fits(&self) -> bool {
        &&& self.stts matches Some(x) ==> x.size_fits()
        &&& self.ctts matches Some(x) ==> x.size_fits()
        &&& self.stss matches Some(x) ==> x.size_fits()
        &&& self.stsc matches Some(x) ==> x.size_fits()
        &&& self.stsz matches Some(x) ==> x.size_fits()
        &&& self.stco matches Some(x) ==> x.size_fits()
        &&& self.co64 matches Some(x) ==> x.size_fits()
    }

    /// Sum of the sizes of the children present.
    #[verifier::rlimit(40)]
    fn body_len(&self) -> (r: u64)
        requires
            self.size_fits(),
        ensures
            r == self.spec_body_len(),
            r <= 0x100000000000,
    {
        let stsd_size: u64 = match &self.stsd {
            Some(x) => x.box_size(),
            None => 0,
        };
        let stts_size: u64 = match &self.stts {
            Some(x) => x.box_size(),
            None => 0,
        };
        let ctts_size: u64 = match &self.ctts {
            Some(x) => x.box_size(),
            None => 0,
        };
        let stss_size: u64 = match &self.stss {
            Some(x) => x.box_size(),
            None => 0,
        };
        let stsc_size: u64 = match &self.stsc {
            Some(x) => x.box_size(),
            None => 0,
        };
        let stsz_size: u64 = match &self.stsz {
            Some(x) => x.box_size(),
            None => 0,
        };
        let stco_size: u64 = match &self.stco {
            Some(x) => x.box_size(),
            None => 0,
        };
        let co64_size: u64 = match &self.co64 {
            Some(x) => x.box_size(),
            None => 0,
        };
        stsd_size + stts_size + ctts_size + stss_size + stsc_size + stsz_size + stco_size + co64_size
    }

    /// Total size of the box, header included.
    pub fn box_size(&self) -> (r: u64)
        requires
            self.size_fits(),
        ensures
            r == self.spec_size(),
            r <= 0x100000000010,
    {
        boxed_size(self.body_len())
    }

    /// Appends the box and its children.
    #[verifier::rlimit(40)]
    pub fn write_box(&self, out: &mut Vec<u8>) -> (r: u64)
        requires
            self.size_fits(),
        ensures
            r == self.spec_size(),
            final(out)@.len() == old(out)@.len() + r,
            final(out)@.subrange(0, old(out)@.len() as int) == old(out)@,
    {
        let size = put_header(out, BoxType::StblBox, self.body_len());
        let ghost mut snap = out@;
        assert(snap.subrange(0, old(out)@.len() as int) =~= old(out)@);
        if let Some(x) = &self.stsd {
            x.write_box(out);
        }
        proof {
            if self.stsd is Some {
                lemma_prefix_chain(old(out)@, snap, out@);
            }
            snap = out@;
        }
        if let Some(x) = &self.stts {
            x.write_box(out);
        }
        proof {
            if self.stts is Some {
                lemma_prefix_chain(old(out)@, snap, out@);
            }
            snap = out@;
        }
        if let Some(x) = &self.ctts {
            x.write_box(out);
        }
        proof {
            if self.ctts is Some {
                lemma_prefix_chain(old(out)@, snap, out@);
            }
            snap = out@;
        }
        if let Some(x) = &self.stss {
            x.write_box(out);
        }
        proof {
            if self.stss is Some {
                lemma_prefix_chain(old(out)@, snap, out@);
            }
            snap = out@;
        }
        if let Some(x) = &self.stsc {
            x.write_box(out);
        }
        proof {
            if self.stsc is Some {
                lemma_prefix_chain(old(out)@, snap, out@);
            }
            snap = out@;
        }
        if let Some(x) = &self.stsz {
            x.write_box(out);
        }
        proof {
            if self.stsz is Some {
                lemma_prefix_chain(old(out)@, snap, out@);
            }
            snap = out@;
        }
        if let Some(x) = &self.stco {
            x.write_box(out);
        }
        proof {
            if self.stco is Some {
                lemma_prefix_chain(old(out)@, snap, out@);
            }
            snap = out@;
        }
        if let Some(x) = &self.co64 {
            x.write_box(out);
        }
        proof {
            if self.co64 is Some {
                lemma_prefix_chain(old(out)@, snap, out@);
            }
            snap = out@;
        }
        size
    }
}

impl MinfBox {
    /// Body length: the children present.
    pub open spec fn spec_body_len(&self) -> int {
        (match self.vmhd { Some(x) => boxed(12), None => 0 }) + (match self.smhd { Some(x) => boxed(8), None => 0 }) + (match self.dinf { Some(x) => x.spec_size(), None => 0 }) + (match self.stbl { Some(x) => boxed(x.spec_body_len()), None => 0 })
    }

    /// Total size of the box as written.
    pub open spec fn spec_size(&self) -> int {
        boxed(self.spec_body_len())
    }

    /// Whether each child can be written.
    pub open spec fn size_fits(&self) -> bool {
        &&& self.dinf matches Some(x) ==> x.size_fits() && x.spec_size() <= CHILD_MAX
        &&& self.stbl matches Some(x) ==> x.size_fits()
    }

    /// Sum of the sizes of the children present.
    #[verifier::rlimit(40)]
    fn body_len(&self) -> (r: u64)
        requires
            self.size_fits(),
        ensures
            r == self.spec_body_len(),
            r <= 0x400000000000,
    {
        let vmhd_size: u64 = match &self.vmhd {
            Some(x) => x.box_size(),
            None => 0,
        };
        let smhd_size: u64 = match &self.smhd {
            Some(x) => x.box_size(),
            None => 0,
        };
        let dinf_size: u64 = match &self.dinf {
            Some(x) => x.get_size(),
            None => 0,
        };
        let stbl_size: u64 = match &self.stbl {
            Some(x) => x.box_size(),
            None => 0,
        };
        vmhd_size + smhd_size + dinf_size + stbl_size
    }

    /// Total size of the box, header included.
    pub fn box_size(&self) -> (r: u64)
        requires
            self.size_fits(),
        ensures
            r == self.spec_size(),
            r <= 0x400000000010,
    {
        boxed_size(self.body_len())
    }

    /// Appends the box and its children.
    #[verifier::rlimit(40)]
    pub fn write_box(&self, out: &mut Vec<u8>) -> (r: u64)
        requires
            self.size_fits(),
        ensures
            r == self.spec_size(),
            final(out)@.len() == old(out)@.len() + r,
            final(out)@.subrange(0, old(out)@.len() as int) == old(out)@,
    {
        let size = put_header(out, BoxType::MinfBox, self.body_len());
        let ghost mut snap = out@;
        assert(snap.subrange(0, old(out)@.len() as int) =~= old(out)@);
        if let Some(x) = &self.vmhd {
            x.write_box(out);
        }
        proof {
            if self.vmhd is Some {
                lemma_prefix_chain(old(out)@, snap, out@);
            }
            snap = out@;
        }
        if let Some(x) = &self.smhd {
            x.write_box(out);
        }
        proof {
            if self.smhd is Some {
                lemma_prefix_chain(old(out)@, snap, out@);
            }
            snap = out@;
        }
        if let Some(x) = &self.dinf {
            x.write_box(out);
        }
        proof {
            if self.dinf is Some {
                assert(out@.subrange(0, snap.len() as int) =~= snap);
                lemma_prefix_chain(old(out)@, snap, out@);
            }
            snap = out@;
        }
        if let Some(x) = &self.stbl {
            x.write_box(out);
        }
        proof {
            if self.stbl is Some {
                lemma_prefix_chain(old(out)@, snap, out@);
            }
            snap = out@;
        }
        size
    }
}

impl MdiaBox {
    /// Body length: the children present.
    pub open spec fn spec_body_len(&self) -> int {
        (match self.mdhd { Some(x) => boxed(x.spec_body_len()), None => 0 }) + (match self.hdlr { Some(x) => boxed(x.spec_body_len()), None => 0 }) + (match self.minf { Some(x) => boxed(x.spec_body_len()), None => 0 })
    }

    /// Total size of the box as written.
    pub open spec fn spec_size(&self) -> int {
        boxed(self.spec_body_len())
    }

    /// Whether each child can be written.
    pub open spec fn size_fits(&self) -> bool {
        &&& self.hdlr matches Some(x) ==> x.size_fits()
        &&& self.minf matches Some(x) ==> x.size_fits()
    }

    /// Sum of the sizes of the children present.
    #[verifier::rlimit(40)]
    fn body_len(&self) -> (r: u64)
        requires
            self.size_fits(),
        ensures
            r == self.spec_body_len(),
            r <= 0x1000000000000,
    {
        let mdhd_size: u64 = match &self.mdhd {
            Some(x) => x.box_size(),
            None => 0,
        };
        let hdlr_size: u64 = match &self.hdlr {
            Some(x) => x.box_size(),
            None => 0,
        };
        let minf_size: u64 = match &self.minf {
            Some(x) => x.box_size(),
            None => 0,
        };
        mdhd_size + hdlr_size + minf_size
    }

    /// Total size of the box, header included.
    pub fn box_size(&self) -> (r: u64)
        requires
            self.size_fits(),
        ensures
            r == self.spec_size(),
            r <= 0x1000000000010,
    {
        boxed_size(self.body_len())
    }

    /// Appends the box and its children.
    #[verifier::rlimit(40)]
    pub fn write_box(&self, out: &mut Vec<u8>) -> (r: u64)
        requires
            self.size_fits(),
        ensures
            r == self.spec_size(),
            final(out)@.len() == old(out)@.len() + r,
            final(out)@.subrange(0, old(out)@.len() as int) == old(out)@,
    {
        let size = put_header(out, BoxType::MdiaBox, self.body_len());
        let ghost mut snap = out@;
        assert(snap.subrange(0, old(out)@.len() as int) =~= old(out)@);
        if let Some(x) = &self.mdhd {
            x.write_box(out);
        }
        proof {
            if self.mdhd is Some {
                lemma_prefix_chain(old(out)@, snap, out@);
            }
            snap = out@;
        }
        if let Some(x) = &self.hdlr {
            x.write_box(out);
        }
        proof {
            if self.hdlr is Some {
                lemma_prefix_chain(old(out)@, snap, out@);
            }
            snap = out@;
        }
        if let Some(x) = &self.minf {
            x.write_box(out);
        }
        proof {
            if self.minf is Some {
                lemma_prefix_chain(old(out)@, snap, out@);
            }
            snap = out@;
        }
        size
    }
}

impl TrakBox {
    /// Body length: the children present.
    pub open spec fn spec_body_len(&self) -> int {
        (match self.tkhd { Some(x) => boxed(x.spec_body_len()), None => 0 }) + (match self.edts { Some(x) => x.spec_size(), None => 0 }) + (match self.mdia { Some(x) => boxed(x.spec_body_len()), None => 0 })
    }

    /// Total size of the box as written.
    pub open spec fn spec_size(&self) -> int {
        boxed(self.spec_body_len())
    }

    /// Whether each child can be written.
    pub open spec fn size_fits(&self) -> bool {
        &&& self.edts matches Some(x) ==> x.size_fits() && x.spec_size() <= CHILD_MAX
        &&& self.mdia matches Some(x) ==> x.size_fits()
    }

    /// Sum of the sizes of the children present.
    #[verifier::rlimit(40)]
    fn body_len(&self) -> (r: u64)
        requires
            self.size_fits(),
        ensures
            r == self.spec_body_len(),
            r <= 0x4000000000000,
    {
        let tkhd_size: u64 = match &self.tkhd {
            Some(x) => x.box_size(),
            None => 0,
        };
        let edts_size: u64 = match &self.edts {
            Some(x) => x.get_size(),
            None => 0,
        };
        let mdia_size: u64 = match &self.mdia {
            Some(x) => x.box_size(),
            None => 0,
        };
        tkhd_size + edts_size + mdia_size
    }

    /// Total size of the box, header included.
    pub fn box_size(&self) -> (r: u64)
        requires
            self.size_fits(),
        ensures
            r == self.spec_size(),
            r <= 0x4000000000010,
    {
        boxed_size(self.body_len())
    }

    /// Appends the box and its children.
    #[verifier::rlimit(40)]
    pub fn write_box(&self, out: &mut Vec<u8>) -> (r: u64)
        requires
            self.size_fits(),
        ensures
            r == self.spec_size(),
            final(out)@.len() == old(out)@.len() + r,
            final(out)@.subrange(0, old(out)@.len() as int) == old(out)@,
    {
        let size = put_header(out, BoxType::TrakBox, self.body_len());
        let ghost mut snap = out@;
        assert(snap.subrange(0, old(out)@.len() as int) =~= old(out)@);
        if let Some(x) = &self.tkhd {
            x.write_box(out);
        }
        proof {
            if self.tkhd is Some {
                lemma_prefix_chain(old(out)@, snap, out@);
            }
            snap = out@;
        }
        if let Some(x) = &self.edts {
            x.write_box(out);
        }
        proof {
            if self.edts is Some {
                assert(out@.subrange(0, snap.len() as int) =~= snap);
                lemma_prefix_chain(old(out)@, snap, out@);
            }
            snap = out@;
        }
        if let Some(x) = &self.mdia {
            x.write_box(out);
        }
        proof {
            if self.mdia is Some {
                lemma_prefix_chain(old(out)@, snap, out@);
            }
            snap = out@;
        }
        size
    }
}

} // verus!
