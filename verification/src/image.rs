//! Bytes at offsets: reading and replacing parts of a memory image.

use vstd::prelude::*;

verus! {

use crate::le::{le_bytes, le_value, lemma_le_bytes_len, lemma_pow256, lemma_value_of_bytes};

/// `b` with `s` written at `off`.
pub open spec fn splice(b: Seq<u8>, off: int, s: Seq<u8>) -> Seq<u8> {
    Seq::new(
        b.len(),
        |i: int|
            if off <= i < off + s.len() {
                s[i - off]
            } else {
                b[i]
            },
    )
}

/// The eight-byte number at `off`.
pub open spec fn u64_at(b: Seq<u8>, off: int) -> u64 {
    le_value(b.subrange(off, off + 8)) as u64
}

/// The four-byte number at `off`.
pub open spec fn u32_at(b: Seq<u8>, off: int) -> u32 {
    le_value(b.subrange(off, off + 4)) as u32
}

/// `b` with an eight-byte number written at `off`.
pub open spec fn put_u64(b: Seq<u8>, off: int, v: u64) -> Seq<u8> {
    splice(b, off, le_bytes(v as nat, 8))
}

/// `b` with a four-byte number written at `off`.
pub open spec fn put_u32(b: Seq<u8>, off: int, v: u32) -> Seq<u8> {
    splice(b, off, le_bytes(v as nat, 4))
}

/// Writes `src` at `off`.
pub fn store(b: &mut Vec<u8>, off: usize, src: &[u8])
    requires
        off + src@.len() <= old(b)@.len(),
    ensures
        final(b)@ == splice(old(b)@, off as int, src@),
{
    let n: usize = src.len();
    let total: usize = b.len();
    let mut i: usize = 0;
    while i < n
        invariant
            i <= n,
            n == src@.len(),
            total == b@.len(),
            off + n <= total,
            b@ == splice(old(b)@, off as int, src@.take(i as int)),
        decreases n - i,
    {
        b[off + i] = src[i];
        i += 1;
        assert(b@ =~= splice(old(b)@, off as int, src@.take(i as int)));
    }
    assert(src@.take(n as int) =~= src@);
}

/// A number that was written is read back.
pub proof fn lemma_read_back(b: Seq<u8>, off: int, x: u64, y: u32)
    ensures
        0 <= off && off + 8 <= b.len() ==> u64_at(put_u64(b, off, x), off) == x,
        0 <= off && off + 4 <= b.len() ==> u32_at(put_u32(b, off, y), off) == y,
{
    lemma_pow256();
    lemma_le_bytes_len(x as nat, 8);
    lemma_le_bytes_len(y as nat, 4);
    lemma_value_of_bytes(x as nat, 8);
    lemma_value_of_bytes(y as nat, 4);
    if 0 <= off && off + 8 <= b.len() {
        assert(put_u64(b, off, x).subrange(off, off + 8) =~= le_bytes(x as nat, 8));
    }
    if 0 <= off && off + 4 <= b.len() {
        assert(put_u32(b, off, y).subrange(off, off + 4) =~= le_bytes(y as nat, 4));
    }
}

/// A write does not touch what lies beside it.
pub proof fn lemma_beside(b: Seq<u8>, off: int, s: Seq<u8>, lo: int, hi: int)
    requires
        0 <= lo <= hi <= b.len(),
        hi <= off || off + s.len() <= lo,
    ensures
        splice(b, off, s).subrange(lo, hi) == b.subrange(lo, hi),
{
    assert(splice(b, off, s).subrange(lo, hi) =~= b.subrange(lo, hi));
}

/// A number at an offset is made of the bytes there, least significant first.
pub proof fn law_numbers_by_their_bytes(b: Seq<u8>, off: int)
    requires
        0 <= off,
        off + 8 <= b.len(),
    ensures
        u32_at(b, off) == b[off] + 0x100 * b[off + 1] + 0x1_0000 * b[off + 2] + 0x100_0000 * b[off
            + 3],
        u64_at(b, off) == b[off] + 0x100 * b[off + 1] + 0x1_0000 * b[off + 2] + 0x100_0000 * b[off
            + 3] + 0x1_0000_0000 * b[off + 4] + 0x100_0000_0000 * b[off + 5] + 0x1_0000_0000_0000
            * b[off + 6] + 0x100_0000_0000_0000 * b[off + 7],
{
    let s = b.subrange(off, off + 8);
    let t = b.subrange(off, off + 4);
    crate::le::law_read_low_byte_first(s);
    crate::le::law_read_low_byte_first(t);
    assert(s.take(4) =~= t);
    crate::le::law_read_low_byte_first(s.skip(4));
}

/// A write replaces exactly the bytes that it covers.
pub proof fn law_writes_replace_their_bytes(b: Seq<u8>, off: int, s: Seq<u8>, i: int)
    requires
        0 <= off,
        off + s.len() <= b.len(),
        0 <= i < b.len(),
    ensures
        splice(b, off, s).len() == b.len(),
        off <= i < off + s.len() ==> splice(b, off, s)[i] == s[i - off],
        i < off || i >= off + s.len() ==> splice(b, off, s)[i] == b[i],
{
}

} // verus!
