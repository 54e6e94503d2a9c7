//! Little- and big-endian integer codecs over byte buffers.

use vstd::prelude::*;

verus! {

/// Little-endian value of the two bytes at `off`.
pub open spec fn le16(s: Seq<u8>, off: int) -> int {
    s[off] as int + 256 * (s[off + 1] as int)
}

/// Little-endian value of the four bytes at `off`.
pub open spec fn le32(s: Seq<u8>, off: int) -> int {
    le16(s, off) + 65536 * le16(s, off + 2)
}

/// Little-endian value of the eight bytes at `off`.
pub open spec fn le64(s: Seq<u8>, off: int) -> int {
    le32(s, off) + 4294967296 * le32(s, off + 4)
}

/// Big-endian value of the two bytes at `off`.
pub open spec fn be16(s: Seq<u8>, off: int) -> int {
    256 * (s[off] as int) + s[off + 1] as int
}

/// Big-endian value of the four bytes at `off`.
pub open spec fn be32(s: Seq<u8>, off: int) -> int {
    65536 * be16(s, off) + be16(s, off + 2)
}

/// Big-endian value of the eight bytes at `off`.
pub open spec fn be64(s: Seq<u8>, off: int) -> int {
    4294967296 * be32(s, off) + be32(s, off + 4)
}

/// The two little-endian bytes of `v`.
pub open spec fn le16_bytes(v: u16) -> Seq<u8> {
    seq![(v % 256) as u8, (v / 256) as u8]
}

/// The four little-endian bytes of `v`.
pub open spec fn le32_bytes(v: u32) -> Seq<u8> {
    seq![(v % 256) as u8, ((v / 256) % 256) as u8, ((v / 65536) % 256) as u8, (v / 16777216) as u8]
}

/// The four big-endian bytes of `v`.
pub open spec fn be32_bytes(v: u32) -> Seq<u8> {
    seq![(v / 16777216) as u8, ((v / 65536) % 256) as u8, ((v / 256) % 256) as u8, (v % 256) as u8]
}

pub proof fn lemma_le16_bytes(v: u16)
    ensures
        le16(le16_bytes(v), 0) == v,
{
}

pub proof fn lemma_le32_bytes(v: u32)
    ensures
        le32(le32_bytes(v), 0) == v,
{
    let b = le32_bytes(v);
    assert(b[0] as int == v % 256);
    assert(b[1] as int == (v / 256) % 256);
    assert(b[2] as int == (v / 65536) % 256);
    assert(b[3] as int == v / 16777216);
}

pub proof fn lemma_be32_bytes(v: u32)
    ensures
        be32(be32_bytes(v), 0) == v,
{
    let b = be32_bytes(v);
    assert(b[3] as int == v % 256);
    assert(b[2] as int == (v / 256) % 256);
    assert(b[1] as int == (v / 65536) % 256);
    assert(b[0] as int == v / 16777216);
}

/// Reads the little-endian `u16` at `off`.
pub fn get_u16(b: &[u8], off: usize) -> (r: u16)
    requires
        off + 2 <= b@.len(),
    ensures
        r == le16(b@, off as int),
{
    let _len: usize = b.len();
    (b[off] as u16) + (b[off + 1] as u16) * 256
}

/// Reads the little-endian `u32` at `off`.
pub fn get_u32(b: &[u8], off: usize) -> (r: u32)
    requires
        off + 4 <= b@.len(),
    ensures
        r == le32(b@, off as int),
{
    let _len: usize = b.len();
    (b[off] as u32) + (b[off + 1] as u32) * 256 + (b[off + 2] as u32) * 65536 + (b[off + 3] as u32)
        * 16777216
}

/// Reads the little-endian `u64` at `off`.
pub fn get_u64(b: &[u8], off: usize) -> (r: u64)
    requires
        off + 8 <= b@.len(),
    ensures
        r == le64(b@, off as int),
{
    let _len: usize = b.len();
    let lo: u32 = get_u32(b, off);
    let hi: u32 = get_u32(b, off + 4);
    (lo as u64) + (hi as u64) * 4294967296
}

/// Reads the big-endian `u32` at `off`.
pub fn get_be_u32(b: &[u8], off: usize) -> (r: u32)
    requires
        off + 4 <= b@.len(),
    ensures
        r == be32(b@, off as int),
{
    let _len: usize = b.len();
    (b[off] as u32) * 16777216 + (b[off + 1] as u32) * 65536 + (b[off + 2] as u32) * 256 + (b[off
        + 3] as u32)
}

/// Reads the big-endian `u16` at `off`.
pub fn get_be_u16(b: &[u8], off: usize) -> (r: u16)
    requires
        off + 2 <= b@.len(),
    ensures
        r == be16(b@, off as int),
{
    let _len: usize = b.len();
    (b[off] as u16) * 256 + (b[off + 1] as u16)
}

/// Writes `v` little-endian at `off`.
pub fn put_u16(b: &mut Vec<u8>, off: usize, v: u16)
    requires
        off + 2 <= old(b)@.len(),
    ensures
        le16(final(b)@, off as int) == v,
        final(b)@.len() == old(b)@.len(),
        forall|i: int| 0 <= i < old(b)@.len() && !(off <= i < off + 2) ==> final(b)@[i] == old(b)@[i],
{
    let _len: usize = b.len();
    b.set(off, (v % 256) as u8);
    b.set(off + 1, (v / 256) as u8);
}

/// Writes `v` little-endian at `off`.
pub fn put_u32(b: &mut Vec<u8>, off: usize, v: u32)
    requires
        off + 4 <= old(b)@.len(),
    ensures
        le32(final(b)@, off as int) == v,
        final(b)@.len() == old(b)@.len(),
        forall|i: int| 0 <= i < old(b)@.len() && !(off <= i < off + 4) ==> final(b)@[i] == old(b)@[i],
{
    let _len: usize = b.len();
    b.set(off, (v % 256) as u8);
    b.set(off + 1, ((v / 256) % 256) as u8);
    b.set(off + 2, ((v / 65536) % 256) as u8);
    b.set(off + 3, (v / 16777216) as u8);
    proof {
        lemma_le32_bytes(v);
    }
}

/// Writes `v` little-endian at `off`.
pub fn put_u64(b: &mut Vec<u8>, off: usize, v: u64)
    requires
        off + 8 <= old(b)@.len(),
    ensures
        le64(final(b)@, off as int) == v,
        final(b)@.len() == old(b)@.len(),
        forall|i: int| 0 <= i < old(b)@.len() && !(off <= i < off + 8) ==> final(b)@[i] == old(b)@[i],
{
    let _len: usize = b.len();
    put_u32(b, off, (v % 4294967296) as u32);
    put_u32(b, off + 4, (v / 4294967296) as u32);
}

/// Writes `v` big-endian at `off`.
pub fn put_be_u32(b: &mut Vec<u8>, off: usize, v: u32)
    requires
        off + 4 <= old(b)@.len(),
    ensures
        be32(final(b)@, off as int) == v,
        final(b)@.len() == old(b)@.len(),
        forall|i: int| 0 <= i < old(b)@.len() && !(off <= i < off + 4) ==> final(b)@[i] == old(b)@[i],
{
    let _len: usize = b.len();
    b.set(off, (v / 16777216) as u8);
    b.set(off + 1, ((v / 65536) % 256) as u8);
    b.set(off + 2, ((v / 256) % 256) as u8);
    b.set(off + 3, (v % 256) as u8);
    proof {
        lemma_be32_bytes(v);
    }
}

/// Writes `v` big-endian at `off`.
pub fn put_be_u64(b: &mut Vec<u8>, off: usize, v: u64)
    requires
        off + 8 <= old(b)@.len(),
    ensures
        be64(final(b)@, off as int) == v,
        final(b)@.len() == old(b)@.len(),
        forall|i: int| 0 <= i < old(b)@.len() && !(off <= i < off + 8) ==> final(b)@[i] == old(b)@[i],
{
    let _len: usize = b.len();
    put_be_u32(b, off, (v / 4294967296) as u32);
    put_be_u32(b, off + 4, (v % 4294967296) as u32);
}

} // verus!
