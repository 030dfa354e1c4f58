//! How long a call may take: the `grpc-timeout` header and the bound of an endpoint
//! or server.

use vstd::prelude::*;

verus! {

use crate::text::{digits_value, is_digit};

/// The length of a unit of time in nanoseconds, by its letter.
pub open spec fn unit_nanos(unit: u8) -> Option<nat> {
    if unit == 0x48 {
        Some(3_600_000_000_000)
    } else if unit == 0x4d {
        Some(60_000_000_000)
    } else if unit == 0x53 {
        Some(1_000_000_000)
    } else if unit == 0x6d {
        Some(1_000_000)
    } else if unit == 0x75 {
        Some(1_000)
    } else if unit == 0x6e {
        Some(1)
    } else {
        None
    }
}

/// The nanoseconds that a `grpc-timeout` value names: one to eight digits and a
/// unit (`H`, `M`, `S`, `m`, `u` or `n`). Anything else names none.
pub open spec fn timeout_of(v: Seq<u8>) -> Option<nat> {
    if 2 <= v.len() <= 9 && forall|i: int| 0 <= i < v.len() - 1 ==> is_digit(#[trigger] v[i]) {
        match unit_nanos(v.last()) {
            Some(n) => Some(digits_value(v.drop_last()) * n),
            None => None,
        }
    } else {
        None
    }
}

/// What a number of so many digits is below.
spec fn below(digits: int) -> nat {
    if digits <= 0 {
        1
    } else if digits == 1 {
        10
    } else if digits == 2 {
        100
    } else if digits == 3 {
        1_000
    } else if digits == 4 {
        10_000
    } else if digits == 5 {
        100_000
    } else if digits == 6 {
        1_000_000
    } else if digits == 7 {
        10_000_000
    } else {
        100_000_000
    }
}

/// Reads a `grpc-timeout` value, in nanoseconds. One that is malformed is none.
pub fn parse_timeout(v: &[u8]) -> (r: Option<u128>)
    ensures
        match r {
            Some(n) => timeout_of(v@) == Some(n as nat),
            None => timeout_of(v@) is None,
        },
{
    let n: usize = v.len();
    if n < 2 || n > 9 {
        return None;
    }
    let mut value: u32 = 0;
    let mut i: usize = 0;
    assert(v@.take(0) =~= Seq::<u8>::empty());
    while i < n - 1
        invariant
            i <= n - 1,
            n == v@.len(),
            2 <= n <= 9,
            value == digits_value(v@.take(i as int)),
            value < below(i as int),
            forall|k: int| 0 <= k < i ==> is_digit(#[trigger] v@[k]),
        decreases n - i,
    {
        let b: u8 = v[i];
        if b < 0x30 || b > 0x39 {
            assert(!is_digit(v@[i as int]));
            return None;
        }
        assert(v@.take(i + 1).drop_last() =~= v@.take(i as int));
        value = 10 * value + (b - 0x30) as u32;
        i += 1;
    }
    assert(v@.take(n - 1) =~= v@.drop_last());
    let unit: u128 = match v[n - 1] {
        0x48 => 3_600_000_000_000,
        0x4d => 60_000_000_000,
        0x53 => 1_000_000_000,
        0x6d => 1_000_000,
        0x75 => 1_000,
        0x6e => 1,
        _ => {
            return None;
        },
    };
    let wide: u128 = value as u128;
    assert(wide * unit <= 100_000_000 * 3_600_000_000_000) by (nonlinear_arith)
        requires
            wide <= 100_000_000,
            unit <= 3_600_000_000_000,
    ;
    Some(wide * unit)
}

/// The shorter of two bounds, as far as they are there.
pub open spec fn shorter(a: Option<u128>, b: Option<u128>) -> Option<u128> {
    match (a, b) {
        (Some(x), Some(y)) => Some(if x <= y { x } else { y }),
        (Some(x), None) => Some(x),
        (None, y) => y,
    }
}

/// The bound on a call, in nanoseconds: the shorter of what its header names and
/// what is configured, as far as they are there.
pub fn call_bound(header: Option<u128>, configured: Option<u128>) -> (r: Option<u128>)
    ensures
        r == match (header, configured) {
            (Some(a), Some(b)) => Some(if a <= b { a } else { b }),
            (Some(a), None) => Some(a),
            (None, b) => b,
        },
        r == shorter(header, configured),
{
    match (header, configured) {
        (Some(a), Some(b)) => Some(
            if a <= b {
                a
            } else {
                b
            },
        ),
        (Some(a), None) => Some(a),
        (None, b) => b,
    }
}

/// What a value names, unit by unit: hours, minutes, seconds, milliseconds, microseconds
/// and nanoseconds, times the number before the unit. A value without a number, with more
/// than eight digits, with anything else in it or with another unit names nothing.
pub proof fn law_timeouts_by_unit(digits: Seq<u8>, unit: u8)
    ensures
        ({
            let v = digits.push(unit);
            let number = 1 <= digits.len() <= 8 && forall|i: int|
                0 <= i < digits.len() ==> 48 <= #[trigger] digits[i] <= 57;
            let n = digits_value(digits);
            &&& number && unit == 72 ==> timeout_of(v) == Some(n * 3600000000000)
            &&& number && unit == 77 ==> timeout_of(v) == Some(n * 60000000000)
            &&& number && unit == 83 ==> timeout_of(v) == Some(n * 1000000000)
            &&& number && unit == 109 ==> timeout_of(v) == Some(n * 1000000)
            &&& number && unit == 117 ==> timeout_of(v) == Some(n * 1000)
            &&& number && unit == 110 ==> timeout_of(v) == Some(n)
            &&& timeout_of(v) is Some <==> number && (unit == 72 || unit == 77 || unit == 83
                || unit == 109 || unit == 117 || unit == 110)
            &&& timeout_of(Seq::empty()) is None
        }),
{
    let v = digits.push(unit);
    let n = digits_value(digits);
    let one: nat = 1;
    assert(n * one == n) by (nonlinear_arith)
        requires
            one == 1,
    ;
    assert(v.drop_last() =~= digits);
    if forall|i: int| 0 <= i < v.len() - 1 ==> is_digit(#[trigger] v[i]) {
        assert forall|i: int| 0 <= i < digits.len() implies 48 <= #[trigger] digits[i] <= 57 by {
            assert(is_digit(v[i]));
        }
    }
    if forall|i: int| 0 <= i < digits.len() ==> 48 <= #[trigger] digits[i] <= 57 {
        assert forall|i: int| 0 <= i < v.len() - 1 implies is_digit(#[trigger] v[i]) by {
            assert(digits[i] == v[i]);
        }
    }
}

/// A call is bounded exactly where its header or the configuration bounds it; it is bounded
/// by one of them, and by neither more loosely than the other allows.
pub proof fn law_the_shorter_bound_holds(a: Option<u128>, b: Option<u128>)
    ensures
        shorter(a, b) is None <==> a is None && b is None,
        shorter(a, b) is Some ==> shorter(a, b) == a || shorter(a, b) == b,
        a matches Some(x) ==> shorter(a, b)->0 <= x,
        b matches Some(x) ==> shorter(a, b)->0 <= x,
        shorter(a, b) == shorter(b, a),
{
}

} // verus!
