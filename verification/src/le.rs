//! Little-endian integers as byte sequences.

use vstd::prelude::*;

verus! {

/// The `n` low bytes of `x`, least significant first.
pub open spec fn le_bytes(x: nat, n: nat) -> Seq<u8>
    decreases n,
{
    if n == 0 {
        Seq::empty()
    } else {
        seq![(x % 256) as u8] + le_bytes(x / 256, (n - 1) as nat)
    }
}

/// The number whose bytes, least significant first, are `s`.
pub open spec fn le_value(s: Seq<u8>) -> nat
    decreases s.len(),
{
    if s.len() == 0 {
        0
    } else {
        s[0] as nat + 256 * le_value(s.drop_first())
    }
}

/// 256 to the power of `n`.
pub open spec fn pow256(n: nat) -> nat
    decreases n,
{
    if n == 0 {
        1
    } else {
        256 * pow256((n - 1) as nat)
    }
}

/// `le_bytes` gives exactly `n` bytes.
pub proof fn lemma_le_bytes_len(x: nat, n: nat)
    ensures
        le_bytes(x, n).len() == n,
    decreases n,
{
    if n > 0 {
        lemma_le_bytes_len(x / 256, (n - 1) as nat);
    }
}

/// Reading back the bytes of a number that fits gives the number.
pub proof fn lemma_value_of_bytes(x: nat, n: nat)
    requires
        x < pow256(n),
    ensures
        le_value(le_bytes(x, n)) == x,
    decreases n,
{
    if n > 0 {
        let m = (n - 1) as nat;
        lemma_value_of_bytes(x / 256, m);
        assert(le_bytes(x, n).drop_first() =~= le_bytes(x / 256, m));
    }
}

/// Writing down the value of `s` gives `s` again, and the value fits.
pub proof fn lemma_bytes_of_value(s: Seq<u8>)
    ensures
        le_value(s) < pow256(s.len()),
        le_bytes(le_value(s), s.len()) == s,
    decreases s.len(),
{
    if s.len() > 0 {
        let t = s.drop_first();
        lemma_bytes_of_value(t);
        let v = le_value(t);
        assert((s[0] as nat + 256 * v) % 256 == s[0] as nat);
        assert((s[0] as nat + 256 * v) / 256 == v);
        assert(le_bytes(le_value(s), s.len()) =~= s);
    } else {
        assert(le_bytes(le_value(s), s.len()) =~= s);
    }
}

/// Only the low `n` bytes of a number count.
pub proof fn lemma_le_bytes_truncate(x: nat, n: nat)
    ensures
        le_bytes(x % pow256(n), n) == le_bytes(x, n),
    decreases n,
{
    if n > 0 {
        let m = (n - 1) as nat;
        let p = pow256(m);
        lemma_pow256_positive(m);
        lemma_le_bytes_truncate(x / 256, m);
        vstd::arithmetic::div_mod::lemma_mod_breakdown(x as int, 256, p as int);
        vstd::arithmetic::div_mod::lemma_fundamental_div_mod(x as int, 256);
        let y = x % (256 * p);
        let r = (x / 256) % p;
        assert(y == 256 * r + x % 256);
        assert(y / 256 == r && y % 256 == x % 256);
    }
}

proof fn lemma_pow256_positive(n: nat)
    ensures
        pow256(n) > 0,
    decreases n,
{
    if n > 0 {
        lemma_pow256_positive((n - 1) as nat);
    }
}

/// The bounds of the widths in use.
pub proof fn lemma_pow256()
    ensures
        pow256(1) == 0x100,
        pow256(2) == 0x1_0000,
        pow256(4) == 0x1_0000_0000,
        pow256(8) == 0x1_0000_0000_0000_0000,
{
    reveal_with_fuel(pow256, 9);
}

/// The two bytes of `x`.
pub fn u16_bytes(x: u16) -> (r: [u8; 2])
    ensures
        r@ == le_bytes(x as nat, 2),
{
    let r = [(x % 256) as u8, (x / 256) as u8];
    proof {
        reveal_with_fuel(le_bytes, 3);
        assert(r@ =~= le_bytes(x as nat, 2));
    }
    r
}

/// The four bytes of `x`.
pub fn u32_bytes(x: u32) -> (r: [u8; 4])
    ensures
        r@ == le_bytes(x as nat, 4),
{
    let r = [
        (x % 256) as u8,
        ((x / 256) % 256) as u8,
        ((x / 256 / 256) % 256) as u8,
        (x / 256 / 256 / 256) as u8,
    ];
    proof {
        reveal_with_fuel(le_bytes, 5);
        assert(r@ =~= le_bytes(x as nat, 4));
    }
    r
}

/// The eight bytes of `x`.
pub fn u64_bytes(x: u64) -> (r: [u8; 8])
    ensures
        r@ == le_bytes(x as nat, 8),
{
    let r = [
        (x % 256) as u8,
        ((x / 256) % 256) as u8,
        ((x / 256 / 256) % 256) as u8,
        ((x / 256 / 256 / 256) % 256) as u8,
        ((x / 256 / 256 / 256 / 256) % 256) as u8,
        ((x / 256 / 256 / 256 / 256 / 256) % 256) as u8,
        ((x / 256 / 256 / 256 / 256 / 256 / 256) % 256) as u8,
        (x / 256 / 256 / 256 / 256 / 256 / 256 / 256) as u8,
    ];
    proof {
        reveal_with_fuel(le_bytes, 9);
        assert(r@ =~= le_bytes(x as nat, 8));
    }
    r
}

/// The number in the two bytes of `b` at `off`.
pub fn read_u16(b: &[u8], off: usize) -> (r: u16)
    requires
        off + 2 <= b@.len(),
    ensures
        r == le_value(b@.subrange(off as int, off + 2)),
{
    proof {
        reveal_with_fuel(le_value, 3);
    }
    b[off] as u16 + 256 * (b[off + 1] as u16)
}

/// The number in the four bytes of `b` at `off`.
pub fn read_u32(b: &[u8], off: usize) -> (r: u32)
    requires
        off + 4 <= b@.len(),
    ensures
        r == le_value(b@.subrange(off as int, off + 4)),
{
    proof {
        reveal_with_fuel(le_value, 5);
    }
    b[off] as u32 + 256 * (b[off + 1] as u32 + 256 * (b[off + 2] as u32 + 256 * (b[off
        + 3] as u32)))
}

/// The number in the eight bytes of `b` at `off`.
pub fn read_u64(b: &[u8], off: usize) -> (r: u64)
    requires
        off + 8 <= b@.len(),
    ensures
        r == le_value(b@.subrange(off as int, off + 8)),
{
    assert(b.len() <= usize::MAX);
    let low: u32 = read_u32(b, off);
    let high: u32 = read_u32(b, off + 4);
    let top: u64 = high as u64;
    assert(0x1_0000_0000 * top <= 0xffff_ffff_0000_0000) by (nonlinear_arith)
        requires
            top <= 0xffff_ffff,
    ;
    proof {
        let s = b@.subrange(off as int, off + 8);
        lemma_le_value_concat(s.subrange(0, 4), s.subrange(4, 8));
        lemma_pow256();
        assert(s.subrange(0, 4) =~= b@.subrange(off as int, off + 4));
        assert(s.subrange(4, 8) =~= b@.subrange(off + 4, off + 8));
        assert(s =~= s.subrange(0, 4) + s.subrange(4, 8));
    }
    low as u64 + 0x1_0000_0000u64 * top
}

/// The value of a concatenation.
pub proof fn lemma_le_value_concat(a: Seq<u8>, b: Seq<u8>)
    ensures
        le_value(a + b) == le_value(a) + pow256(a.len()) * le_value(b),
    decreases a.len(),
{
    if a.len() == 0 {
        assert(a + b =~= b);
        let v = le_value(b);
        assert(1 * v == v);
        assert(pow256(a.len()) == 1);
        assert(pow256(a.len()) * v == v) by (nonlinear_arith)
            requires
                pow256(a.len()) == 1,
        ;
    } else {
        let t = a.drop_first();
        lemma_le_value_concat(t, b);
        assert((a + b).drop_first() =~= t + b);
        let p = pow256(t.len());
        let v = le_value(b);
        assert(256 * (p * v) == (256 * p) * v) by (nonlinear_arith);
    }
}

/// Numbers are written least significant byte first.
pub proof fn law_written_low_byte_first(x: nat)
    ensures
        le_bytes(x, 2) == seq![(x % 256) as u8, (x / 256 % 256) as u8],
        le_bytes(x, 4) == seq![
            (x % 256) as u8,
            (x / 256 % 256) as u8,
            (x / 65536 % 256) as u8,
            (x / 16777216 % 256) as u8,
        ],
        le_bytes(x, 8) == le_bytes(x, 4) + le_bytes(x / 4294967296, 4),
{
    reveal_with_fuel(le_bytes, 9);
    assert(x / 256 / 256 == x / 65536);
    assert(x / 65536 / 256 == x / 16777216);
    assert(x / 16777216 / 256 == x / 4294967296);
    assert(le_bytes(x, 2) =~= seq![(x % 256) as u8, (x / 256 % 256) as u8]);
    assert(le_bytes(x, 4) =~= seq![
        (x % 256) as u8,
        (x / 256 % 256) as u8,
        (x / 65536 % 256) as u8,
        (x / 16777216 % 256) as u8,
    ]);
    assert(le_bytes(x, 8) =~= le_bytes(x, 4) + le_bytes(x / 4294967296, 4));
}

/// Numbers are read least significant byte first.
pub proof fn law_read_low_byte_first(s: Seq<u8>)
    ensures
        s.len() == 2 ==> le_value(s) == s[0] + 256 * s[1],
        s.len() == 4 ==> le_value(s) == s[0] + 256 * s[1] + 65536 * s[2] + 16777216 * s[3],
        s.len() == 8 ==> le_value(s) == le_value(s.take(4)) + 4294967296 * le_value(s.skip(4)),
{
    reveal_with_fuel(le_value, 9);
    if s.len() == 8 {
        assert(s.take(4)[0] == s[0] && s.take(4)[1] == s[1] && s.take(4)[2] == s[2] && s.take(
            4,
        )[3] == s[3]);
    }
}

} // verus!
