//! The file type box: major brand, minor version and compatible brands.

use vstd::prelude::*;
use crate::types::{BoxType, Error, FourCC};
use crate::bytes::{be32, bytes32, fits, read_u32, put_u32, lemma_be32_bytes};
use crate::header::{BoxHeader, boxed_size, spec_header_bytes, spec_header_len, spec_read_header, write_box_header};
use crate::header::{lemma_header_bytes_len, lemma_header_round_trip};

verus! {

/// File type and compatibility.
#[derive(Debug, Clone, PartialEq, Eq)]
pub struct FtypBox {
    pub major_brand: FourCC,
    pub minor_version: u32,
    pub compatible_brands: Vec<FourCC>,
}

/// The bytes of a list of brands, four per brand.
pub open spec fn brands_bytes(s: Seq<FourCC>) -> Seq<u8>
    decreases s.len(),
{
    if s.len() == 0 {
        Seq::empty()
    } else {
        brands_bytes(s.drop_last()) + bytes32(s.last().value)
    }
}

pub proof fn lemma_brands_bytes(s: Seq<FourCC>)
    ensures
        brands_bytes(s).len() == 4 * s.len(),
        forall|i: int| 0 <= i < s.len() ==> #[trigger] brands_bytes(s).subrange(4 * i, 4 * i + 4) == bytes32(s[i].value),
    decreases s.len(),
{
    if s.len() > 0 {
        let t = s.drop_last();
        lemma_brands_bytes(t);
        assert forall|i: int| 0 <= i < s.len() implies #[trigger] brands_bytes(s).subrange(4 * i, 4 * i + 4) == bytes32(s[i].value) by {
            if i < t.len() {
                assert(brands_bytes(s).subrange(4 * i, 4 * i + 4) =~= brands_bytes(t).subrange(4 * i, 4 * i + 4));
                assert(brands_bytes(t).subrange(4 * i, 4 * i + 4) == bytes32(t[i].value));
            } else {
                assert(brands_bytes(s).subrange(4 * i, 4 * i + 4) =~= bytes32(s.last().value));
            }
        }
    }
}

/// The fields of an `ftyp` body of `body` bytes read at `p` of `s`.
pub open spec fn ftyp_fields_at(s: Seq<u8>, p: int, body: int, b: FtypBox) -> bool {
    &&& b.major_brand.value == be32(s, p)
    &&& b.minor_version == be32(s, p + 4)
    &&& b.compatible_brands@.len() == (body - 8) / 4
    &&& forall|i: int| 0 <= i < b.compatible_brands@.len() ==> #[trigger] b.compatible_brands@[i].value == be32(s, p + 8 + 4 * i)
}

/// Whether the body of `body` bytes at `p` reads as a box of this type.
pub open spec fn ftyp_read_ok(s: Seq<u8>, p: int, body: int) -> bool {
    !(body < 8 || body % 4 != 0) && !(!fits(s, p, body))
}

/// Whether `x` is what the body of `body` bytes at `p` reads as.
pub open spec fn ftyp_read_at(s: Seq<u8>, p: int, body: int, x: FtypBox) -> bool {
    {
        &&& ftyp_fields_at(s, p, body, x)
    }
}

impl FtypBox {
    /// Length of the body: brands and version, without the header.
    pub open spec fn spec_body_len(&self) -> int {
        8 + 4 * (self.compatible_brands@.len() as int)
    }

    /// Total size of the box as written.
    pub open spec fn spec_size(&self) -> int {
        self.spec_body_len() + spec_header_len(self.spec_body_len())
    }

    /// Whether the box's size fits in 64 bits.
    pub open spec fn size_fits(&self) -> bool {
        self.spec_body_len() + 16 <= u64::MAX
    }

    /// The bytes the box is written as.
    pub open spec fn spec_bytes(&self) -> Seq<u8> {
        spec_header_bytes(BoxType::FtypBox, self.spec_size() as u64) + bytes32(self.major_brand.value)
            + bytes32(self.minor_version) + brands_bytes(self.compatible_brands@)
    }

    /// Type of the box.
    pub fn box_type(&self) -> (r: BoxType)
        ensures
            r == BoxType::FtypBox,
    {
        BoxType::FtypBox
    }

    /// Total size of the box, header included.
    pub fn box_size(&self) -> (r: u64)
        requires
            self.size_fits(),
        ensures
            r == self.spec_size(),
    {
        boxed_size(8 + 4 * self.compatible_brands.len() as u64)
    }

    /// Reads the body of an `ftyp` box whose header `header` was read just
    /// before the cursor.
    pub fn read_box(data: &[u8], pos: &mut usize, header: BoxHeader) -> (r: Result<FtypBox, Error>)
        requires
            header.header_len <= header.size,
        ensures
            ({
                let body = header.size - header.header_len;
                let p = *old(pos) as int;
                if body < 8 || body % 4 != 0 {
                    r == Err::<FtypBox, Error>(Error::InvalidData("invalid ftyp size"))
                } else if !fits(data@, p, body) {
                    r == Err::<FtypBox, Error>(Error::Io)
                } else {
                    &&& r is Ok
                    &&& ftyp_fields_at(data@, p, body, r->Ok_0)
                    &&& *final(pos) == p + body
                }
            }),
    {
        let body = header.size - header.header_len;
        if body < 8 || body % 4 != 0 {
            return Err(Error::InvalidData("invalid ftyp size"));
        }
        if !(*pos <= data.len() && body <= (data.len() - *pos) as u64) {
            return Err(Error::Io);
        }
        let ghost p = *pos as int;
        let major = read_u32(data, pos)?;
        let minor = read_u32(data, pos)?;
        let count = (body - 8) / 4;
        let mut brands: Vec<FourCC> = Vec::new();
        let mut i: u64 = 0;
        while i < count
            invariant
                fits(data@, p, body as int),
                count == (body - 8) / 4,
                body % 4 == 0,
                0 <= i <= count,
                *pos == p + 8 + 4 * i,
                brands@.len() == i,
                forall|j: int| 0 <= j < i ==> #[trigger] brands@[j].value == be32(data@, p + 8 + 4 * j),
            decreases count - i,
        {
            let b = read_u32(data, pos)?;
            brands.push(FourCC { value: b });
            i = i + 1;
        }
        Ok(FtypBox { major_brand: FourCC { value: major }, minor_version: minor, compatible_brands: brands })
    }

    /// Appends the box; yields its size, which is the number of bytes appended.
    pub fn write_box(&self, out: &mut Vec<u8>) -> (r: u64)
        requires
            self.size_fits(),
        ensures
            r == self.spec_size(),
            final(out)@ == old(out)@ + self.spec_bytes(),
            final(out)@.len() == old(out)@.len() + r,
    {
        let size = self.box_size();
        write_box_header(out, BoxType::FtypBox, size);
        put_u32(out, self.major_brand.value);
        put_u32(out, self.minor_version);
        let ghost before = out@;
        let mut i: usize = 0;
        while i < self.compatible_brands.len()
            invariant
                0 <= i <= self.compatible_brands@.len(),
                out@ == before + brands_bytes(self.compatible_brands@.subrange(0, i as int)),
            decreases self.compatible_brands@.len() - i,
        {
            put_u32(out, self.compatible_brands[i].value);
            proof {
                let s = self.compatible_brands@.subrange(0, i + 1);
                assert(s.drop_last() =~= self.compatible_brands@.subrange(0, i as int));
            }
            i = i + 1;
        }
        proof {
            assert(self.compatible_brands@.subrange(0, i as int) =~= self.compatible_brands@);
            assert(out@ =~= old(out)@ + self.spec_bytes());
            lemma_ftyp_bytes_len(self);
        }
        size
    }
}

pub proof fn lemma_ftyp_bytes_len(b: &FtypBox)
    requires
        b.size_fits(),
    ensures
        b.spec_bytes().len() == b.spec_size(),
{
    lemma_brands_bytes(b.compatible_brands@);
    lemma_header_bytes_len(BoxType::FtypBox, b.spec_size() as u64);
}

/// Writing an `ftyp` box and reading it back gives the same box: the header
/// reads back with the written size, the body passes the reader's checks,
/// and any box that the reader can yield from those bytes equals the one written.
pub proof fn lemma_ftyp_round_trip(b: FtypBox, back: FtypBox)
    requires
        b.size_fits(),
    ensures
        ({
            let s = b.spec_bytes();
            let size = b.spec_size();
            let hl = spec_header_len(b.spec_body_len());
            let body = size - hl;
            &&& s.len() == size
            &&& spec_read_header(s, 0) == Ok::<BoxHeader, Error>(
                BoxHeader { name: BoxType::FtypBox, size: size as u64, header_len: hl as u64 },
            )
            &&& body >= 8 && body % 4 == 0 && fits(s, hl, body)
            &&& ftyp_fields_at(s, hl, body, back) ==> {
                &&& back.major_brand == b.major_brand
                &&& back.minor_version == b.minor_version
                &&& back.compatible_brands@ == b.compatible_brands@
            }
        }),
{
    let s = b.spec_bytes();
    let size = b.spec_size();
    let hl = spec_header_len(b.spec_body_len());
    let hb = spec_header_bytes(BoxType::FtypBox, size as u64);
    let rest = bytes32(b.major_brand.value) + bytes32(b.minor_version) + brands_bytes(b.compatible_brands@);
    lemma_ftyp_bytes_len(&b);
    lemma_brands_bytes(b.compatible_brands@);
    assert(s =~= hb + rest);
    lemma_header_round_trip(BoxType::FtypBox, size as u64, rest);
    assert(hb.len() == hl);
    assert(s.subrange(hl, hl + 4) =~= bytes32(b.major_brand.value));
    assert(s.subrange(hl + 4, hl + 8) =~= bytes32(b.minor_version));
    lemma_be32_bytes(s, hl, b.major_brand.value);
    lemma_be32_bytes(s, hl + 4, b.minor_version);
    if ftyp_fields_at(s, hl, size - hl, back) {
        let n = b.compatible_brands@.len();
        assert forall|i: int| 0 <= i < n implies back.compatible_brands@[i] == b.compatible_brands@[i] by {
            let bb = brands_bytes(b.compatible_brands@);
            assert(bb.subrange(4 * i, 4 * i + 4) == bytes32(b.compatible_brands@[i].value));
            assert(s.subrange(hl + 8 + 4 * i, hl + 8 + 4 * i + 4) =~= bb.subrange(4 * i, 4 * i + 4));
            lemma_be32_bytes(s, hl + 8 + 4 * i, b.compatible_brands@[i].value);
            assert(back.compatible_brands@[i].value == be32(s, hl + 8 + 4 * i));
        }
        assert(back.compatible_brands@ =~= b.compatible_brands@);
    }
}

} // verus!
