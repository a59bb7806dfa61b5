//! Big-endian integers over byte sequences: what a read yields, what a write
//! appends, and reading at a cursor into an in-memory byte source.

use vstd::prelude::*;
use byteorder::{BigEndian, ByteOrder};
use vstd::utf8::{encode_utf8, valid_utf8};
use crate::types::Error;

verus! {

/// The 16-bit integer stored at `i`, most significant byte first.
pub open spec fn be16(s: Seq<u8>, i: int) -> u16 {
    (((s[i] as u16) << 8u16) | (s[i + 1] as u16)) as u16
}

/// The 32-bit integer stored at `i`, most significant byte first.
pub open spec fn be32(s: Seq<u8>, i: int) -> u32 {
    (((s[i] as u32) << 24u32) | ((s[i + 1] as u32) << 16u32) | ((s[i + 2] as u32) << 8u32)
        | (s[i + 3] as u32)) as u32
}

/// The 64-bit integer stored at `i`, most significant byte first.
pub open spec fn be64(s: Seq<u8>, i: int) -> u64 {
    (((be32(s, i) as u64) << 32u64) | (be32(s, i + 4) as u64)) as u64
}

/// The two bytes of `n`, most significant first.
pub open spec fn bytes16(n: u16) -> Seq<u8> {
    seq![(n >> 8u16) as u8, n as u8]
}

/// The four bytes of `n`, most significant first.
pub open spec fn bytes32(n: u32) -> Seq<u8> {
    seq![(n >> 24u32) as u8, (n >> 16u32) as u8, (n >> 8u32) as u8, n as u8]
}

/// The eight bytes of `n`, most significant first.
pub open spec fn bytes64(n: u64) -> Seq<u8> {
    bytes32((n >> 32u64) as u32) + bytes32(n as u32)
}

/// Whether `n` bytes can be read at `pos`.
pub open spec fn fits(s: Seq<u8>, pos: int, n: int) -> bool {
    0 <= pos && pos + n <= s.len()
}

pub proof fn lemma_be16_bytes(s: Seq<u8>, i: int, n: u16)
    requires
        0 <= i,
        i + 2 <= s.len(),
        s.subrange(i, i + 2) == bytes16(n),
    ensures
        be16(s, i) == n,
{
    let t = s.subrange(i, i + 2);
    assert(s[i] == t[0] && s[i + 1] == t[1]);
    assert((((((n >> 8u16) as u8) as u16) << 8u16) | (((n as u8) as u16))) == n) by (bit_vector);
}

pub proof fn lemma_be32_bytes(s: Seq<u8>, i: int, n: u32)
    requires
        0 <= i,
        i + 4 <= s.len(),
        s.subrange(i, i + 4) == bytes32(n),
    ensures
        be32(s, i) == n,
{
    let t = s.subrange(i, i + 4);
    assert(s[i] == t[0] && s[i + 1] == t[1] && s[i + 2] == t[2] && s[i + 3] == t[3]);
    assert(((((n >> 24u32) as u8) as u32) << 24u32 | ((((n >> 16u32) as u8) as u32) << 16u32)
        | ((((n >> 8u32) as u8) as u32) << 8u32) | ((n as u8) as u32)) == n) by (bit_vector);
}

pub proof fn lemma_be64_bytes(s: Seq<u8>, i: int, n: u64)
    requires
        0 <= i,
        i + 8 <= s.len(),
        s.subrange(i, i + 8) == bytes64(n),
    ensures
        be64(s, i) == n,
{
    let hi = (n >> 32u64) as u32;
    let lo = n as u32;
    assert(s.subrange(i, i + 4) =~= s.subrange(i, i + 8).subrange(0, 4));
    assert(s.subrange(i + 4, i + 8) =~= s.subrange(i, i + 8).subrange(4, 8));
    assert(bytes64(n).subrange(0, 4) =~= bytes32(hi));
    assert(bytes64(n).subrange(4, 8) =~= bytes32(lo));
    lemma_be32_bytes(s, i, hi);
    lemma_be32_bytes(s, i + 4, lo);
    assert(((((n >> 32u64) as u32) as u64) << 32u64 | ((n as u32) as u64)) == n) by (bit_vector);
}

/// Relies on byteorder's `BigEndian::read_u16`: the two bytes at `pos`, most
/// significant first.
#[verifier::external_body]
fn be_read_u16(data: &[u8], pos: usize) -> (r: u16)
    requires
        pos + 2 <= data@.len(),
    ensures
        r == be16(data@, pos as int),
{
    BigEndian::read_u16(&data[pos..])
}

/// Relies on byteorder's `BigEndian::read_u32`: the four bytes at `pos`, most
/// significant first.
#[verifier::external_body]
fn be_read_u32(data: &[u8], pos: usize) -> (r: u32)
    requires
        pos + 4 <= data@.len(),
    ensures
        r == be32(data@, pos as int),
{
    BigEndian::read_u32(&data[pos..])
}

/// Relies on byteorder's `BigEndian::read_u64`: the eight bytes at `pos`, most
/// significant first.
#[verifier::external_body]
fn be_read_u64(data: &[u8], pos: usize) -> (r: u64)
    requires
        pos + 8 <= data@.len(),
    ensures
        r == be64(data@, pos as int),
{
    BigEndian::read_u64(&data[pos..])
}

/// Relies on byteorder's `BigEndian::write_u16`: two bytes, most significant first.
#[verifier::external_body]
fn be_bytes_u16(n: u16) -> (r: Vec<u8>)
    ensures
        r@ == bytes16(n),
{
    let mut b = vec![0u8; 2];
    BigEndian::write_u16(&mut b, n);
    b
}

/// Relies on byteorder's `BigEndian::write_u32`: four bytes, most significant first.
#[verifier::external_body]
fn be_bytes_u32(n: u32) -> (r: Vec<u8>)
    ensures
        r@ == bytes32(n),
{
    let mut b = vec![0u8; 4];
    BigEndian::write_u32(&mut b, n);
    b
}

/// Relies on byteorder's `BigEndian::write_u64`: eight bytes, most significant first.
#[verifier::external_body]
fn be_bytes_u64(n: u64) -> (r: Vec<u8>)
    ensures
        r@ == bytes64(n),
{
    let mut b = vec![0u8; 8];
    BigEndian::write_u64(&mut b, n);
    b
}

/// Reads one byte at the cursor and moves past it.
pub fn read_u8(data: &[u8], pos: &mut usize) -> (r: Result<u8, Error>)
    ensures
        fits(data@, *old(pos) as int, 1) ==> r == Ok::<u8, Error>(data@[*old(pos) as int])
            && *final(pos) == *old(pos) + 1,
        !fits(data@, *old(pos) as int, 1) ==> r == Err::<u8, Error>(Error::Io)
            && *final(pos) == *old(pos),
{
    if *pos < data.len() {
        let v = data[*pos];
        *pos = *pos + 1;
        Ok(v)
    } else {
        Err(Error::Io)
    }
}

/// Reads a big-endian 16-bit integer at the cursor and moves past it.
pub fn read_u16(data: &[u8], pos: &mut usize) -> (r: Result<u16, Error>)
    ensures
        fits(data@, *old(pos) as int, 2) ==> r == Ok::<u16, Error>(be16(data@, *old(pos) as int))
            && *final(pos) == *old(pos) + 2,
        !fits(data@, *old(pos) as int, 2) ==> r == Err::<u16, Error>(Error::Io)
            && *final(pos) == *old(pos),
{
    if *pos <= data.len() && data.len() - *pos >= 2 {
        let v = be_read_u16(data, *pos);
        *pos = *pos + 2;
        Ok(v)
    } else {
        Err(Error::Io)
    }
}

/// Reads a big-endian 32-bit integer at the cursor and moves past it.
pub fn read_u32(data: &[u8], pos: &mut usize) -> (r: Result<u32, Error>)
    ensures
        fits(data@, *old(pos) as int, 4) ==> r == Ok::<u32, Error>(be32(data@, *old(pos) as int))
            && *final(pos) == *old(pos) + 4,
        !fits(data@, *old(pos) as int, 4) ==> r == Err::<u32, Error>(Error::Io)
            && *final(pos) == *old(pos),
{
    if *pos <= data.len() && data.len() - *pos >= 4 {
        let v = be_read_u32(data, *pos);
        *pos = *pos + 4;
        Ok(v)
    } else {
        Err(Error::Io)
    }
}

/// Reads a big-endian 64-bit integer at the cursor and moves past it.
pub fn read_u64(data: &[u8], pos: &mut usize) -> (r: Result<u64, Error>)
    ensures
        fits(data@, *old(pos) as int, 8) ==> r == Ok::<u64, Error>(be64(data@, *old(pos) as int))
            && *final(pos) == *old(pos) + 8,
        !fits(data@, *old(pos) as int, 8) ==> r == Err::<u64, Error>(Error::Io)
            && *final(pos) == *old(pos),
{
    if *pos <= data.len() && data.len() - *pos >= 8 {
        let v = be_read_u64(data, *pos);
        *pos = *pos + 8;
        Ok(v)
    } else {
        Err(Error::Io)
    }
}

/// Appends one byte.
pub fn put_u8(out: &mut Vec<u8>, n: u8)
    ensures
        final(out)@ == old(out)@ + seq![n],
{
    out.push(n);
    assert(final(out)@ =~= old(out)@ + seq![n]);
}

/// Appends a big-endian 16-bit integer.
pub fn put_u16(out: &mut Vec<u8>, n: u16)
    ensures
        final(out)@ == old(out)@ + bytes16(n),
{
    let mut b = be_bytes_u16(n);
    out.append(&mut b);
}

/// Appends a big-endian 32-bit integer.
pub fn put_u32(out: &mut Vec<u8>, n: u32)
    ensures
        final(out)@ == old(out)@ + bytes32(n),
{
    let mut b = be_bytes_u32(n);
    out.append(&mut b);
}

/// Appends a big-endian 64-bit integer.
pub fn put_u64(out: &mut Vec<u8>, n: u64)
    ensures
        final(out)@ == old(out)@ + bytes64(n),
{
    let mut b = be_bytes_u64(n);
    out.append(&mut b);
}

/// A copy of the bytes from `start` up to, not including, `end`.
pub fn copy_range(data: &[u8], start: usize, end: usize) -> (r: Vec<u8>)
    requires
        start <= end <= data@.len(),
    ensures
        r@ == data@.subrange(start as int, end as int),
{
    let mut out: Vec<u8> = Vec::new();
    let mut j: usize = start;
    while j < end
        invariant
            start <= j <= end <= data@.len(),
            out@ == data@.subrange(start as int, j as int),
        decreases end - j,
    {
        out.push(data[j]);
        j = j + 1;
        assert(out@ =~= data@.subrange(start as int, j as int));
    }
    out
}

/// The big-endian 16-bit integer at `off`.
pub fn u16_at(data: &[u8], off: usize) -> (r: u16)
    requires
        fits(data@, off as int, 2),
    ensures
        r == be16(data@, off as int),
{
    let mut q = off;
    match read_u16(data, &mut q) {
        Ok(v) => v,
        Err(_) => 0,
    }
}

/// The big-endian 32-bit integer at `off`.
pub fn u32_at(data: &[u8], off: usize) -> (r: u32)
    requires
        fits(data@, off as int, 4),
    ensures
        r == be32(data@, off as int),
{
    let mut q = off;
    match read_u32(data, &mut q) {
        Ok(v) => v,
        Err(_) => 0,
    }
}

/// The big-endian 64-bit integer at `off`.
pub fn u64_at(data: &[u8], off: usize) -> (r: u64)
    requires
        fits(data@, off as int, 8),
    ensures
        r == be64(data@, off as int),
{
    let mut q = off;
    match read_u64(data, &mut q) {
        Ok(v) => v,
        Err(_) => 0,
    }
}

/// Relies on std's `String::from_utf8`: the bytes as text exactly when they
/// are valid UTF-8.
#[verifier::external_body]
pub(crate) fn utf8_string(b: Vec<u8>) -> (r: Option<String>)
    ensures
        r is Some <==> valid_utf8(b@),
        r matches Some(s) ==> encode_utf8(s@) == b@,
{
    String::from_utf8(b).ok()
}

} // verus!
