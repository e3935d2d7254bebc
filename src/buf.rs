//! The growable byte buffer that requests are encoded into, and the
//! little-endian layouts written to it.
use bytes::BufMut;
use bytes::BytesMut;
use vstd::prelude::*;

verus! {

/// bytes::BytesMut, the growable buffer that requests are encoded into.
/// Its writes panic when the length would pass `isize::MAX`, which the
/// wrappers below exclude.
#[verifier::external_type_specification]
#[verifier::external_body]
pub struct ExBytesMut(BytesMut);

/// The bytes a buffer holds, in order.
pub uninterp spec fn buf_bytes(b: BytesMut) -> Seq<u8>;

pub open spec fn le16(n: u16) -> Seq<u8> {
    seq![n as u8, (n >> 8) as u8]
}

pub open spec fn le32(n: u32) -> Seq<u8> {
    le16(n as u16) + le16((n >> 16) as u16)
}

pub open spec fn le64(n: u64) -> Seq<u8> {
    le32(n as u32) + le32((n >> 32) as u32)
}

/// The `u16` stored little-endian at `p`.
pub open spec fn u16_at(s: Seq<u8>, p: int) -> u16 {
    (s[p] as u16) | ((s[p + 1] as u16) << 8u16)
}

/// The `u32` stored little-endian at `p`.
pub open spec fn u32_at(s: Seq<u8>, p: int) -> u32 {
    (u16_at(s, p) as u32) | ((u16_at(s, p + 2) as u32) << 16u32)
}

/// The `u64` stored little-endian at `p`.
pub open spec fn u64_at(s: Seq<u8>, p: int) -> u64 {
    (u32_at(s, p) as u64) | ((u32_at(s, p + 4) as u64) << 32u64)
}

/// Relies on BytesMut::new: a new buffer holds no bytes.
#[verifier::external_body]
pub fn buf_new() -> (r: BytesMut)
    ensures
        buf_bytes(r) == Seq::<u8>::empty(),
{
    BytesMut::new()
}

/// Relies on BufMut::put_u8 for BytesMut: appends one byte.
#[verifier::external_body]
pub fn put_u8(b: &mut BytesMut, n: u8)
    requires
        buf_bytes(*old(b)).len() + 1 <= isize::MAX,
    ensures
        buf_bytes(*final(b)) == buf_bytes(*old(b)).push(n),
{
    b.put_u8(n)
}

/// Relies on BufMut::put_u16_le for BytesMut: appends the two bytes of `n`,
/// least significant first.
#[verifier::external_body]
pub fn put_u16_le(b: &mut BytesMut, n: u16)
    requires
        buf_bytes(*old(b)).len() + 2 <= isize::MAX,
    ensures
        buf_bytes(*final(b)) == buf_bytes(*old(b)) + le16(n),
{
    b.put_u16_le(n)
}

/// Relies on BufMut::put_u32_le for BytesMut: appends the four bytes of `n`,
/// least significant first.
#[verifier::external_body]
pub fn put_u32_le(b: &mut BytesMut, n: u32)
    requires
        buf_bytes(*old(b)).len() + 4 <= isize::MAX,
    ensures
        buf_bytes(*final(b)) == buf_bytes(*old(b)) + le32(n),
{
    b.put_u32_le(n)
}

/// Relies on BufMut::put_u64_le for BytesMut: appends the eight bytes of `n`,
/// least significant first.
#[verifier::external_body]
pub fn put_u64_le(b: &mut BytesMut, n: u64)
    requires
        buf_bytes(*old(b)).len() + 8 <= isize::MAX,
    ensures
        buf_bytes(*final(b)) == buf_bytes(*old(b)) + le64(n),
{
    b.put_u64_le(n)
}

/// Relies on BufMut::put_slice for BytesMut: appends the bytes of `s` in order.
#[verifier::external_body]
pub fn put_slice(b: &mut BytesMut, s: &[u8])
    requires
        buf_bytes(*old(b)).len() + s@.len() <= isize::MAX,
    ensures
        buf_bytes(*final(b)) == buf_bytes(*old(b)) + s@,
{
    b.put_slice(s)
}

/// Relies on `<[u8]>::to_vec` through BytesMut's deref: a copy of the bytes held.
#[verifier::external_body]
pub fn buf_to_vec(b: &BytesMut) -> (r: Vec<u8>)
    ensures
        r@ == buf_bytes(*b),
{
    b.to_vec()
}

/// Reads a little-endian `u16` at `pos`.
pub fn read_u16_le(s: &[u8], pos: usize) -> (r: u16)
    requires
        pos + 2 <= s@.len(),
    ensures
        r == u16_at(s@, pos as int),
{
    (s[pos] as u16) | ((s[pos + 1] as u16) << 8u16)
}

/// Reads a little-endian `u32` at `pos`.
pub fn read_u32_le(s: &[u8], pos: usize) -> (r: u32)
    requires
        pos + 4 <= s@.len(),
    ensures
        r == u32_at(s@, pos as int),
{
    assert(s.len() == s@.len());
    let lo = read_u16_le(s, pos);
    let hi = read_u16_le(s, pos + 2);
    (lo as u32) | ((hi as u32) << 16u32)
}

/// Reads a little-endian `u64` at `pos`.
pub fn read_u64_le(s: &[u8], pos: usize) -> (r: u64)
    requires
        pos + 8 <= s@.len(),
    ensures
        r == u64_at(s@, pos as int),
{
    assert(s.len() == s@.len());
    let lo = read_u32_le(s, pos);
    let hi = read_u32_le(s, pos + 4);
    (lo as u64) | ((hi as u64) << 32u64)
}

/// Reading back the two bytes written for `n` gives `n`.
pub proof fn lemma_u16_at(s: Seq<u8>, p: int, n: u16)
    requires
        0 <= p,
        p + 2 <= s.len(),
        s.subrange(p, p + 2) == le16(n),
    ensures
        u16_at(s, p) == n,
{
    assert(s[p] == s.subrange(p, p + 2)[0]);
    assert(s[p + 1] == s.subrange(p, p + 2)[1]);
    assert(((n as u8) as u16) | ((((n >> 8u16) as u8) as u16) << 8u16) == n) by (bit_vector);
}

/// Reading back the four bytes written for `n` gives `n`.
pub proof fn lemma_u32_at(s: Seq<u8>, p: int, n: u32)
    requires
        0 <= p,
        p + 4 <= s.len(),
        s.subrange(p, p + 4) == le32(n),
    ensures
        u32_at(s, p) == n,
{
    assert(s.subrange(p, p + 2) =~= s.subrange(p, p + 4).subrange(0, 2));
    assert(s.subrange(p + 2, p + 4) =~= s.subrange(p, p + 4).subrange(2, 4));
    assert(le32(n).subrange(0, 2) =~= le16(n as u16));
    assert(le32(n).subrange(2, 4) =~= le16((n >> 16u32) as u16));
    lemma_u16_at(s, p, n as u16);
    lemma_u16_at(s, p + 2, (n >> 16u32) as u16);
    assert(((n as u16) as u32) | ((((n >> 16u32) as u16) as u32) << 16u32) == n) by (bit_vector);
}

/// Reading back the eight bytes written for `n` gives `n`.
pub proof fn lemma_u64_at(s: Seq<u8>, p: int, n: u64)
    requires
        0 <= p,
        p + 8 <= s.len(),
        s.subrange(p, p + 8) == le64(n),
    ensures
        u64_at(s, p) == n,
{
    assert(s.subrange(p, p + 4) =~= s.subrange(p, p + 8).subrange(0, 4));
    assert(s.subrange(p + 4, p + 8) =~= s.subrange(p, p + 8).subrange(4, 8));
    assert(le64(n).subrange(0, 4) =~= le32(n as u32));
    assert(le64(n).subrange(4, 8) =~= le32((n >> 32u64) as u32));
    lemma_u32_at(s, p, n as u32);
    lemma_u32_at(s, p + 4, (n >> 32u64) as u32);
    assert(((n as u32) as u64) | ((((n >> 32u64) as u32) as u64) << 32u64) == n) by (bit_vector);
}

} // verus!
