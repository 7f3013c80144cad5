//! Which numbers a legacy size attribute may hold: those of the grammar in
//! [`crate::number`] that are written with digits, are not below zero, and
//! are small enough to be a finite length.
//!
//! A number that is not zero is read as `0.d1 d2 d3 ... x 10^E` with `d1`
//! not zero. It is small enough if it is below `2^128 - 2^103`, the least
//! number that a single-precision float can no longer hold: `E` is below
//! 39, or `E` is 39 and the first 39 digits come before the digits of that
//! limit.

use vstd::prelude::*;
use vstd::slice::slice_subrange;
use crate::number::digits_end;
use crate::number::is_decimal;
use crate::number::is_decimal_text;
use crate::number::is_digit;
use crate::number::is_exponent_from;
use crate::number::is_float_text;
use crate::number::is_sign;
use crate::number::is_special;
use crate::number::lemma_digits_end;
use crate::number::skip_digits;
use crate::number::unsigned_part;

verus! {

/// `t` has a point right after its leading digits.
pub open spec fn has_point(t: Seq<u8>) -> bool {
    digits_end(t, 0) < t.len() && t[digits_end(t, 0)] == 0x2e
}

/// Where the digits and the point of `t` end, and its exponent begins if
/// it has one.
pub open spec fn mantissa_end(t: Seq<u8>) -> int {
    if has_point(t) {
        digits_end(t, digits_end(t, 0) + 1)
    } else {
        digits_end(t, 0)
    }
}

/// The digits of `t` before its exponent, those before the point and
/// those after it.
pub open spec fn mantissa_digits(t: Seq<u8>) -> Seq<u8> {
    if has_point(t) {
        t.subrange(0, digits_end(t, 0)) + t.subrange(digits_end(t, 0) + 1, mantissa_end(t))
    } else {
        t.subrange(0, digits_end(t, 0))
    }
}

/// How many digits of `t` stand after the point.
pub open spec fn fraction_len(t: Seq<u8>) -> int {
    if has_point(t) {
        mantissa_end(t) - digits_end(t, 0) - 1
    } else {
        0
    }
}

/// The first place at or after `from` where `d` holds no zero digit.
pub open spec fn zeros_end(d: Seq<u8>, from: int) -> int
    decreases d.len() - from,
{
    if 0 <= from < d.len() && d[from] == 0x30 {
        zeros_end(d, from + 1)
    } else {
        from
    }
}

/// The number that the digits of `s` from `from` up to `to` spell.
pub open spec fn digits_value(s: Seq<u8>, from: int, to: int) -> int
    decreases to - from,
{
    if to <= from {
        0
    } else {
        digits_value(s, from, to - 1) * 10 + (s[to - 1] - 0x30)
    }
}

/// Where the digits of the exponent start, given that the exponent starts
/// at `j`: after the letter and the sign, if there is one.
pub open spec fn exponent_digits_start(t: Seq<u8>, j: int) -> int {
    if j + 1 < t.len() && is_sign(t[j + 1]) {
        j + 2
    } else {
        j + 1
    }
}

/// The exponent of `t`: what its digits spell, below zero after a minus
/// sign, and zero where `t` has no exponent.
pub open spec fn exponent_of(t: Seq<u8>) -> int {
    let j = mantissa_end(t);
    if j >= t.len() {
        0
    } else {
        let value = digits_value(t, exponent_digits_start(t, j), t.len() as int);
        if j + 1 < t.len() && t[j + 1] == 0x2d {
            -value
        } else {
            value
        }
    }
}

/// The number is zero: all its digits are.
pub open spec fn is_zero_number(t: Seq<u8>) -> bool {
    zeros_end(mantissa_digits(t), 0) == mantissa_digits(t).len()
}

/// The `E` of a number that is not zero, read as `0.d1 d2 ... x 10^E`
/// with `d1` not zero.
pub open spec fn magnitude(t: Seq<u8>) -> int {
    let d = mantissa_digits(t);
    d.len() - zeros_end(d, 0) + exponent_of(t) - fraction_len(t)
}

/// The digit `d1`, `d2`, ... at place `i`, counted from 0, of the digits
/// `d` without their leading zeros; a zero past their end.
pub open spec fn leading(d: Seq<u8>, i: int) -> u8 {
    let z = zeros_end(d, 0);
    if z + i < d.len() {
        d[z + i]
    } else {
        0x30
    }
}

/// The 39 digits of `2^128 - 2^103`.
pub open spec fn limit_digits() -> Seq<u8> {
    seq![
        0x33u8, 0x34, 0x30, 0x32, 0x38, 0x32, 0x33, 0x35, 0x36, 0x37, 0x37, 0x39, 0x37, 0x33, 0x33, 0x36,
        0x36, 0x31, 0x36, 0x33, 0x37, 0x35, 0x33, 0x39, 0x33, 0x39, 0x35, 0x34, 0x35, 0x38, 0x31, 0x34,
        0x32, 0x35, 0x36, 0x38, 0x34, 0x34, 0x38,
    ]
}

/// The digits `d` and those of the limit first differ at place `i`, and
/// there `d` has the smaller digit.
pub open spec fn differs_below_at(d: Seq<u8>, i: int) -> bool {
    &&& 0 <= i < 39
    &&& leading(d, i) < limit_digits()[i]
    &&& forall|j: int| 0 <= j < i ==> #[trigger] leading(d, j) == limit_digits()[j]
}

/// The first 39 digits of `d`, leading zeros apart, come before the
/// digits of the limit.
pub open spec fn leads_below_limit(d: Seq<u8>) -> bool {
    exists|i: int| differs_below_at(d, i)
}

/// The number `t`, which has no sign, is zero or below `2^128 - 2^103`.
pub open spec fn below_limit(t: Seq<u8>) -> bool {
    ||| is_zero_number(t)
    ||| magnitude(t) < 39
    ||| magnitude(t) == 39 && leads_below_limit(mantissa_digits(t))
}

/// `s` is a number that a size can hold: digits with at most one point and
/// an optional exponent, after an optional sign; with a minus sign only
/// if the number is zero; and below `2^128 - 2^103`. The words `inf`,
/// `infinity` and `nan` are no such number.
pub open spec fn is_size_text(s: Seq<u8>) -> bool {
    let t = unsigned_part(s);
    &&& is_decimal(t)
    &&& (s.len() > 0 && s[0] == 0x2d ==> is_zero_number(t))
    &&& below_limit(t)
}

/// A number that a size can hold is a number of the grammar, and none of
/// its special words.
pub proof fn lemma_size_text_is_a_number(s: Seq<u8>)
    requires
        is_size_text(s),
    ensures
        is_float_text(s),
        !is_special(unsigned_part(s)),
{
    let t = unsigned_part(s);
    lemma_digits_end(t, 0);
    if digits_end(t, 0) == 0 {
        assert(t[0] == 0x2e);
    } else {
        assert(is_digit(t[0]));
    }
}

/// Where the zeros stop: at a digit that is no zero, or at the end.
proof fn lemma_zeros_end_is(d: Seq<u8>, from: int, at: int)
    requires
        0 <= from <= at <= d.len(),
        forall|k: int| from <= k < at ==> #[trigger] d[k] == 0x30,
        at < d.len() ==> d[at] != 0x30,
    ensures
        zeros_end(d, from) == at,
    decreases at - from,
{
    if from < at {
        assert(d[from] == 0x30);
        lemma_zeros_end_is(d, from + 1, at);
    }
}

/// The digits of `t` before its exponent.
fn mantissa(t: &[u8], a: usize, j: usize) -> (d: Vec<u8>)
    requires
        a == digits_end(t@, 0),
        j == mantissa_end(t@),
        a <= j <= t@.len(),
    ensures
        d@ == mantissa_digits(t@),
{
    proof {
        if has_point(t@) {
            lemma_digits_end(t@, a + 1);
        }
    }
    let mut d: Vec<u8> = Vec::new();
    let mut i: usize = 0;
    while i < a
        invariant
            i <= a <= t@.len(),
            d@ == t@.subrange(0, i as int),
        decreases a - i,
    {
        d.push(t[i]);
        assert(d@ =~= t@.subrange(0, i + 1));
        i += 1;
    }
    if a < j {
        let ghost front = d@;
        let mut k: usize = a + 1;
        assert(d@ =~= front + t@.subrange(a + 1, k as int));
        while k < j
            invariant
                a < k <= j <= t@.len(),
                front == t@.subrange(0, a as int),
                d@ == front + t@.subrange(a + 1, k as int),
            decreases j - k,
        {
            d.push(t[k]);
            assert(d@ =~= front + t@.subrange(a + 1, k + 1));
            k += 1;
        }
    }
    d
}

/// The first place where `d` holds no zero digit.
fn skip_zeros(d: &Vec<u8>) -> (z: usize)
    ensures
        z == zeros_end(d@, 0),
        z <= d@.len(),
{
    let mut z: usize = 0;
    while z < d.len() && d[z] == 0x30
        invariant
            z <= d@.len(),
            forall|k: int| 0 <= k < z ==> #[trigger] d@[k] == 0x30,
        decreases d@.len() - z,
    {
        z += 1;
    }
    proof {
        lemma_zeros_end_is(d@, 0, z as int);
    }
    z
}

/// What the digits of `t` from `k` on spell, or `10^30` where that is
/// more.
fn capped_value(t: &[u8], k: usize) -> (r: u128)
    requires
        k <= t@.len(),
        forall|i: int| k <= i < t@.len() ==> is_digit(#[trigger] t@[i]),
    ensures
        r == (if digits_value(t@, k as int, t@.len() as int) < 1_000_000_000_000_000_000_000_000_000_000 {
            digits_value(t@, k as int, t@.len() as int)
        } else {
            1_000_000_000_000_000_000_000_000_000_000
        }),
{
    let cap: u128 = 1_000_000_000_000_000_000_000_000_000_000;
    let mut acc: u128 = 0;
    let mut i: usize = k;
    while i < t.len()
        invariant
            k <= i <= t@.len(),
            cap == 1_000_000_000_000_000_000_000_000_000_000,
            forall|x: int| k <= x < t@.len() ==> is_digit(#[trigger] t@[x]),
            0 <= digits_value(t@, k as int, i as int),
            acc == (if digits_value(t@, k as int, i as int) < cap {
                digits_value(t@, k as int, i as int)
            } else {
                cap as int
            }),
        decreases t@.len() - i,
    {
        assert(is_digit(t@[i as int]));
        let digit: u128 = (t[i] - 0x30) as u128;
        assert(digits_value(t@, k as int, i + 1) == digits_value(t@, k as int, i as int) * 10 + digit);
        if acc < cap {
            acc = acc * 10 + digit;
            if acc > cap {
                acc = cap;
            }
        }
        i += 1;
    }
    acc
}

/// Whether the first 39 digits of `d`, leading zeros apart, come before
/// the digits of the limit.
fn leads_below(d: &Vec<u8>, z: usize) -> (r: bool)
    requires
        z == zeros_end(d@, 0),
        z <= d@.len(),
    ensures
        r == leads_below_limit(d@),
{
    let limit: [u8; 39] = [
        0x33, 0x34, 0x30, 0x32, 0x38, 0x32, 0x33, 0x35, 0x36, 0x37, 0x37, 0x39, 0x37, 0x33, 0x33, 0x36,
        0x36, 0x31, 0x36, 0x33, 0x37, 0x35, 0x33, 0x39, 0x33, 0x39, 0x35, 0x34, 0x35, 0x38, 0x31, 0x34,
        0x32, 0x35, 0x36, 0x38, 0x34, 0x34, 0x38,
    ];
    assert(limit@ =~= limit_digits());
    let rest: usize = d.len() - z;
    let mut i: usize = 0;
    while i < 39
        invariant
            i <= 39,
            z == zeros_end(d@, 0),
            z <= d@.len() <= usize::MAX,
            rest == d@.len() - z,
            limit@ == limit_digits(),
            forall|j: int| 0 <= j < i ==> #[trigger] leading(d@, j) == limit_digits()[j],
        decreases 39 - i,
    {
        let lead: u8 = if i < rest {
            d[z + i]
        } else {
            0x30
        };
        assert(lead == leading(d@, i as int));
        if lead < limit[i] {
            assert(differs_below_at(d@, i as int));
            return true;
        }
        if lead > limit[i] {
            assert forall|x: int| !differs_below_at(d@, x) by {
                if differs_below_at(d@, x) {
                    if x > i {
                        assert(leading(d@, i as int) == limit_digits()[i as int]);
                    }
                }
            }
            return false;
        }
        i += 1;
    }
    assert forall|x: int| !differs_below_at(d@, x) by {
        if differs_below_at(d@, x) {
            assert(leading(d@, x) == limit_digits()[x]);
        }
    }
    false
}

/// The exponent of `t`, which starts at `j` if there is one; held to
/// `10^30` either way where it is beyond.
fn capped_exponent(t: &[u8], j: usize) -> (x: i128)
    requires
        j == mantissa_end(t@),
        j <= t@.len(),
        j < t@.len() ==> is_exponent_from(t@, j as int),
    ensures
        -1_000_000_000_000_000_000_000_000_000_000 <= x <= 1_000_000_000_000_000_000_000_000_000_000,
        -1_000_000_000_000_000_000_000_000_000_000 < exponent_of(t@)
            < 1_000_000_000_000_000_000_000_000_000_000 ==> x == exponent_of(t@),
        exponent_of(t@) >= 1_000_000_000_000_000_000_000_000_000_000 ==> x
            == 1_000_000_000_000_000_000_000_000_000_000,
        exponent_of(t@) <= -1_000_000_000_000_000_000_000_000_000_000 ==> x
            == -1_000_000_000_000_000_000_000_000_000_000,
{
    if j >= t.len() {
        return 0;
    }
    let k: usize = if j + 1 < t.len() && (t[j + 1] == 0x2b || t[j + 1] == 0x2d) {
        j + 2
    } else {
        j + 1
    };
    proof {
        lemma_digits_end(t@, k as int);
    }
    let value: u128 = capped_value(t, k);
    if t[j + 1] == 0x2d {
        -(value as i128)
    } else {
        value as i128
    }
}

/// Whether `s` is a number that a size can hold.
pub fn is_size_number(s: &[u8]) -> (r: bool)
    ensures
        r == is_size_text(s@),
{
    let n: usize = s.len();
    let start: usize = if n > 0 && (s[0] == 0x2b || s[0] == 0x2d) {
        1
    } else {
        0
    };
    let minus: bool = n > 0 && s[0] == 0x2d;
    let t = slice_subrange(s, start, n);
    assert(t@ =~= unsigned_part(s@)) by {
        assert(s@.skip(0) =~= s@);
    }
    if !is_decimal_text(t) {
        return false;
    }
    let a: usize = skip_digits(t, 0);
    let pointed: bool = a < t.len() && t[a] == 0x2e;
    let j: usize = if pointed {
        skip_digits(t, a + 1)
    } else {
        a
    };
    let d = mantissa(t, a, j);
    let z: usize = skip_zeros(&d);
    if z == d.len() {
        return true;
    }
    if minus {
        return false;
    }
    let fraction: usize = if pointed {
        j - a - 1
    } else {
        0
    };
    assert(j == mantissa_end(t@));
    assert(fraction == fraction_len(t@));
    let exponent: i128 = capped_exponent(t, j);
    let e: i128 = (d.len() - z) as i128 + exponent - fraction as i128;
    proof {
        let m = magnitude(t@);
        assert(m == d@.len() - z + exponent_of(t@) - fraction);
        assert(e < 39 <==> m < 39);
        assert(e == 39 <==> m == 39);
    }
    if e < 39 {
        return true;
    }
    if e > 39 {
        return false;
    }
    leads_below(&d, z)
}

} // verus!
