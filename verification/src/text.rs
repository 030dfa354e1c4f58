//! Numbers as text, for messages and for the `:status` pseudo-header, and messages
//! as header values.

use vstd::prelude::*;
use vstd::string::StringExecFns;

verus! {

use crate::outside::valid_header_value;

/// The character of a digit below sixteen.
pub open spec fn digit_char(d: nat) -> char {
    if d < 10 {
        (('0' as u8) + d) as char
    } else {
        (('a' as u8) + (d - 10)) as char
    }
}

/// `n` in decimal, without leading zeros.
pub open spec fn decimal(n: nat) -> Seq<char>
    decreases n,
{
    if n < 10 {
        seq![digit_char(n)]
    } else {
        decimal(n / 10) + seq![digit_char(n % 10)]
    }
}

/// A byte in hexadecimal, without leading zeros, after `0x`.
pub open spec fn hex_byte(n: u8) -> Seq<char> {
    "0x"@ + (if n < 16 {
        seq![digit_char(n as nat)]
    } else {
        seq![digit_char((n / 16) as nat), digit_char((n % 16) as nat)]
    })
}

fn digit(d: u8) -> (r: &'static str)
    requires
        d < 16,
    ensures
        r@ == seq![digit_char(d as nat)],
{
    proof {
        reveal_strlit("0");
        reveal_strlit("1");
        reveal_strlit("2");
        reveal_strlit("3");
        reveal_strlit("4");
        reveal_strlit("5");
        reveal_strlit("6");
        reveal_strlit("7");
        reveal_strlit("8");
        reveal_strlit("9");
        reveal_strlit("a");
        reveal_strlit("b");
        reveal_strlit("c");
        reveal_strlit("d");
        reveal_strlit("e");
        reveal_strlit("f");
    }
    let r = match d {
        0 => "0",
        1 => "1",
        2 => "2",
        3 => "3",
        4 => "4",
        5 => "5",
        6 => "6",
        7 => "7",
        8 => "8",
        9 => "9",
        10 => "a",
        11 => "b",
        12 => "c",
        13 => "d",
        14 => "e",
        _ => "f",
    };
    assert(r@ =~= seq![digit_char(d as nat)]);
    r
}

/// Renders `n` in decimal.
pub fn decimal_text(n: u64) -> (r: String)
    ensures
        r@ == decimal(n as nat),
    decreases n,
{
    if n < 10 {
        digit(n as u8).to_owned()
    } else {
        let mut s = decimal_text(n / 10);
        s.append(digit((n % 10) as u8));
        s
    }
}

/// Renders a byte as `0x..`.
pub fn hex_text(n: u8) -> (r: String)
    ensures
        r@ == hex_byte(n),
{
    let mut s = "0x".to_owned();
    if n >= 16 {
        s.append(digit(n / 16));
    }
    s.append(digit(n % 16));
    proof {
        if n >= 16 {
            assert(s@ =~= hex_byte(n));
        }
    }
    s
}

/// `before`, then `n` in decimal, then `after`.
pub fn with_number(before: &str, n: u64, after: &str) -> (r: String)
    ensures
        r@ == before@ + decimal(n as nat) + after@,
{
    let mut s = before.to_owned();
    s.append(decimal_text(n).as_str());
    s.append(after);
    s
}

/// `n` in decimal, as ASCII bytes.
pub open spec fn decimal_bytes(n: nat) -> Seq<u8>
    decreases n,
{
    if n < 10 {
        seq![(0x30 + n) as u8]
    } else {
        decimal_bytes(n / 10) + seq![(0x30 + n % 10) as u8]
    }
}

/// Renders `n` in decimal, as ASCII bytes.
pub fn decimal_vec(n: u16) -> (r: Vec<u8>)
    ensures
        r@ == decimal_bytes(n as nat),
    decreases n,
{
    if n < 10 {
        let mut v: Vec<u8> = Vec::new();
        v.push(0x30 + n as u8);
        assert(v@ =~= decimal_bytes(n as nat));
        v
    } else {
        let mut v = decimal_vec(n / 10);
        v.push(0x30 + (n % 10) as u8);
        assert(v@ =~= decimal_bytes(n as nat));
        v
    }
}

/// An ASCII digit.
pub open spec fn is_digit(b: u8) -> bool {
    0x30 <= b <= 0x39
}

/// The number that ASCII digits stand for.
pub open spec fn digits_value(s: Seq<u8>) -> nat
    decreases s.len(),
{
    if s.len() == 0 {
        0
    } else {
        10 * digits_value(s.drop_last()) + (s.last() - 0x30) as nat
    }
}

/// The digits of an unsigned number: what follows a `+`, or all of it.
pub open spec fn unsigned_digits(s: Seq<u8>) -> Seq<u8> {
    if s.len() > 0 && s[0] == 0x2b {
        s.drop_first()
    } else {
        s
    }
}

/// The number that `s` spells: an optional `+` and then at least one digit, as
/// long as it fits in sixteen bits.
pub open spec fn parsed_u16(s: Seq<u8>) -> Option<u16> {
    let d = unsigned_digits(s);
    if d.len() > 0 && (forall|i: int| 0 <= i < d.len() ==> is_digit(#[trigger] d[i]))
        && digits_value(d) <= 0xffff {
        Some(digits_value(d) as u16)
    } else {
        None
    }
}

proof fn lemma_digits_value_monotone(s: Seq<u8>, k: int)
    requires
        0 <= k <= s.len(),
        forall|i: int| 0 <= i < s.len() ==> is_digit(#[trigger] s[i]),
    ensures
        digits_value(s.take(k)) <= digits_value(s),
    decreases s.len() - k,
{
    if k == s.len() {
        assert(s.take(k) =~= s);
    } else {
        lemma_digits_value_monotone(s, k + 1);
        assert(s.take(k + 1).drop_last() =~= s.take(k));
    }
}

/// Reads an unsigned number of at most sixteen bits.
pub fn parse_u16(b: &[u8]) -> (r: Option<u16>)
    ensures
        r == parsed_u16(b@),
{
    let n: usize = b.len();
    let start: usize = if n > 0 && b[0] == 0x2b {
        1
    } else {
        0
    };
    let ghost d = unsigned_digits(b@);
    assert(d =~= b@.skip(start as int));
    if start == n {
        return None;
    }
    let mut value: u32 = 0;
    let mut i: usize = start;
    while i < n
        invariant
            start <= i <= n,
            start <= 1,
            n == b@.len(),
            d == b@.skip(start as int),
            d == unsigned_digits(b@),
            value <= 0xffff,
            value == digits_value(d.take(i - start)),
            forall|k: int| 0 <= k < i - start ==> is_digit(#[trigger] d[k]),
        decreases n - i,
    {
        let c: u8 = b[i];
        assert(d[i - start] == c);
        if c < 0x30 || c > 0x39 {
            assert(!is_digit(d[i - start]));
            return None;
        }
        value = value * 10 + (c - 0x30) as u32;
        assert(d.take(i + 1 - start).drop_last() =~= d.take(i - start));
        if value > 0xffff {
            proof {
                if forall|k: int| 0 <= k < d.len() ==> is_digit(#[trigger] d[k]) {
                    lemma_digits_value_monotone(d, i + 1 - start);
                }
            }
            return None;
        }
        i += 1;
    }
    assert(d.take(n - start) =~= d);
    Some(value as u16)
}

/// A number rendered in decimal reads back as itself.
pub proof fn law_decimal_roundtrip(n: u16)
    ensures
        parsed_u16(decimal_bytes(n as nat)) == Some(n),
{
    lemma_decimal_bytes(n as nat);
}

proof fn lemma_decimal_bytes(n: nat)
    ensures
        decimal_bytes(n).len() > 0,
        forall|i: int| 0 <= i < decimal_bytes(n).len() ==> is_digit(#[trigger] decimal_bytes(n)[i]),
        digits_value(decimal_bytes(n)) == n,
    decreases n,
{
    reveal_with_fuel(digits_value, 2);
    if n >= 10 {
        lemma_decimal_bytes(n / 10);
        assert(decimal_bytes(n).drop_last() =~= decimal_bytes(n / 10));
    }
}

// ---------------------------------------------------------------------
// messages in headers
// ---------------------------------------------------------------------

/// A byte that a status message holds as it is: printable ASCII but for `%`.
pub open spec fn plain_byte(b: u8) -> bool {
    0x20 <= b <= 0x7e && b != 0x25
}

/// The byte of an upper-case hexadecimal digit.
pub open spec fn upper_digit(d: int) -> u8 {
    if d < 10 {
        (0x30 + d) as u8
    } else {
        (0x37 + d) as u8
    }
}

/// A byte of a status message, as `%` and two digits where it is not plain.
pub open spec fn escaped_byte(b: u8) -> Seq<u8> {
    if plain_byte(b) {
        seq![b]
    } else {
        seq![0x25, upper_digit(b as int / 16), upper_digit(b as int % 16)]
    }
}

/// A status message as a header value: each byte escaped where it needs it.
pub open spec fn escaped(s: Seq<u8>) -> Seq<u8>
    decreases s.len(),
{
    if s.len() == 0 {
        Seq::empty()
    } else {
        escaped(s.drop_last()) + escaped_byte(s.last())
    }
}

fn upper_digit_of(d: u8) -> (r: u8)
    requires
        d < 16,
    ensures
        r == upper_digit(d as int),
{
    if d < 10 {
        0x30 + d
    } else {
        0x37 + d
    }
}

/// Escapes the bytes of a status message. The result can always stand in a header.
pub fn escape(s: &[u8]) -> (r: Vec<u8>)
    ensures
        r@ == escaped(s@),
        valid_header_value(r@),
{
    let mut out: Vec<u8> = Vec::new();
    let mut i: usize = 0;
    assert(s@.take(0) =~= Seq::<u8>::empty());
    while i < s.len()
        invariant
            i <= s@.len(),
            out@ == escaped(s@.take(i as int)),
            valid_header_value(out@),
        decreases s@.len() - i,
    {
        let b: u8 = s[i];
        let ghost before = out@;
        if b >= 0x20 && b <= 0x7e && b != 0x25 {
            out.push(b);
        } else {
            out.push(0x25);
            out.push(upper_digit_of(b / 16));
            out.push(upper_digit_of(b % 16));
        }
        proof {
            let next = s@.take(i + 1);
            assert(next.drop_last() =~= s@.take(i as int));
            assert(next.last() == b);
            assert(out@ =~= before + escaped_byte(b));
        }
        i += 1;
    }
    assert(s@.take(s@.len() as int) =~= s@);
    out
}

// ---------------------------------------------------------------------
// what texts say
// ---------------------------------------------------------------------

/// The number that decimal characters stand for.
pub open spec fn chars_value(s: Seq<char>) -> int
    decreases s.len(),
{
    if s.len() == 0 {
        0
    } else {
        10 * chars_value(s.drop_last()) + (s.last() as int - 48)
    }
}

/// A number in decimal is made of digits, has no leading zero, and reads back as itself.
pub proof fn law_decimal_is_the_number(n: nat)
    ensures
        decimal(n).len() > 0,
        forall|i: int| 0 <= i < decimal(n).len() ==> 48 <= #[trigger] decimal(n)[i] as int <= 57,
        n > 0 ==> decimal(n)[0] as int != 48,
        n < 10 ==> decimal(n).len() == 1,
        chars_value(decimal(n)) == n,
    decreases n,
{
    reveal_with_fuel(chars_value, 2);
    let d: nat = n % 10;
    assert(digit_char(d) as int == 48 + d);
    if n >= 10 {
        law_decimal_is_the_number(n / 10);
        assert(decimal(n).drop_last() =~= decimal(n / 10));
        assert(decimal(n).last() == digit_char(d));
        assert(decimal(n)[0] == decimal(n / 10)[0]);
        assert forall|i: int| 0 <= i < decimal(n).len() implies 48 <= #[trigger] decimal(
            n,
        )[i] as int <= 57 by {
            if i < decimal(n / 10).len() {
                assert(decimal(n)[i] == decimal(n / 10)[i]);
            }
        }
    } else {
        assert(decimal(n).drop_last() =~= Seq::<char>::empty());
    }
}

/// A number in decimal bytes has no leading zero.
pub proof fn law_decimal_bytes_are_short(n: nat)
    ensures
        decimal_bytes(n).len() > 0,
        n > 0 ==> decimal_bytes(n)[0] != 48,
        n < 10 ==> decimal_bytes(n) == seq![(48 + n) as u8],
        n >= 10 ==> decimal_bytes(n) == decimal_bytes(n / 10).push((48 + n % 10) as u8),
    decreases n,
{
    if n >= 10 {
        law_decimal_bytes_are_short(n / 10);
        assert(decimal_bytes(n) =~= decimal_bytes(n / 10).push((48 + n % 10) as u8));
    }
}

/// The digits of a byte in hexadecimal: `0x`, and then one or two of `0` to `9` and `a` to
/// `f`, the upper one only where it is not zero.
pub proof fn law_hex_byte(n: u8)
    ensures
        ({
            let h = hex_byte(n);
            let lo = n as int % 16;
            let hi = n as int / 16;
            &&& h.len() == if n < 16 {
                3int
            } else {
                4
            }
            &&& h[0] as int == 48 && h[1] as int == 120
            &&& h.last() as int == if lo < 10 {
                48 + lo
            } else {
                87 + lo
            }
            &&& n >= 16 ==> h[2] as int == if hi < 10 {
                48 + hi
            } else {
                87 + hi
            }
        }),
{
    reveal_strlit("0x");
}

/// The number that digits spell grows digit by digit.
pub proof fn law_digits_value(s: Seq<u8>, d: u8)
    requires
        48 <= d <= 57,
    ensures
        digits_value(Seq::empty()) == 0,
        digits_value(s.push(d)) == 10 * digits_value(s) + (d - 48),
{
    assert(s.push(d).drop_last() =~= s);
}

/// A number of sixteen bits is read from digits alone, at least one, behind an optional
/// plus sign; anything else is none.
pub proof fn law_parsed_u16(s: Seq<u8>, d: Seq<u8>)
    requires
        (d == s && (s.len() == 0 || s[0] != 43)) || s == seq![43u8] + d,
    ensures
        parsed_u16(s) is Some <==> d.len() > 0 && (forall|i: int|
            0 <= i < d.len() ==> 48 <= #[trigger] d[i] <= 57) && digits_value(d) <= 65535,
        parsed_u16(s) matches Some(n) ==> n == digits_value(d),
{
    if s == seq![43u8] + d {
        assert(s.drop_first() =~= d);
    }
    assert(unsigned_digits(s) =~= d);
    if forall|i: int| 0 <= i < d.len() ==> 48 <= #[trigger] d[i] <= 57 {
        assert(forall|i: int| 0 <= i < d.len() ==> is_digit(#[trigger] d[i]));
    }
    if forall|i: int| 0 <= i < d.len() ==> is_digit(#[trigger] d[i]) {
        assert forall|i: int| 0 <= i < d.len() implies 48 <= #[trigger] d[i] <= 57 by {
            assert(is_digit(d[i]));
        }
    }
}

/// A message is escaped byte by byte: printable ASCII but for the percent sign stays, and
/// any other byte becomes a percent sign and its two upper-case hexadecimal digits.
pub proof fn law_escaped_byte_by_byte(s: Seq<u8>, b: u8)
    ensures
        escaped(Seq::empty()) == Seq::<u8>::empty(),
        32 <= b <= 126 && b != 37 ==> escaped(s.push(b)) == escaped(s).push(b),
        !(32 <= b <= 126 && b != 37) ==> {
            let e = escaped(s.push(b));
            let n = escaped(s).len() as int;
            let hi = b as int / 16;
            let lo = b as int % 16;
            &&& e.len() == n + 3
            &&& e.take(n) == escaped(s)
            &&& e[n] == 37
            &&& e[n + 1] == if hi < 10 {
                48 + hi
            } else {
                55 + hi
            }
            &&& e[n + 2] == if lo < 10 {
                48 + lo
            } else {
                55 + lo
            }
        },
{
    assert(s.push(b).drop_last() =~= s);
    assert(escaped(s.push(b)).take(escaped(s).len() as int) =~= escaped(s));
    if 32 <= b <= 126 && b != 37 {
        assert(escaped(s.push(b)) =~= escaped(s).push(b));
    }
}

} // verus!
