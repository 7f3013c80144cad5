//! Recognising numbers as they are written in attribute values.
//!
//! The texts accepted are those of this grammar, letters in either case.
//! Which of them a size may hold is said in [`crate::size_number`].
//!
//! ```text
//! Float  ::= Sign? ( 'inf' | 'infinity' | 'nan' | Number )
//! Number ::= ( Digit+ | Digit+ '.' Digit* | Digit* '.' Digit+ ) Exp?
//! Exp    ::= 'e' Sign? Digit+
//! Sign   ::= [+-]
//! Digit  ::= [0-9]
//! ```

use vstd::prelude::*;
use crate::engine::ascii_lower;
use crate::engine::same_ignoring_ascii_case;

verus! {

/// `b` is a decimal digit.
pub open spec fn is_digit(b: u8) -> bool {
    0x30 <= b <= 0x39
}

/// `b` is a plus or a minus sign.
pub open spec fn is_sign(b: u8) -> bool {
    b == 0x2b || b == 0x2d
}

/// The first place at or after `from` where `s` holds no digit.
pub open spec fn digits_end(s: Seq<u8>, from: int) -> int
    decreases s.len() - from,
{
    if 0 <= from < s.len() && is_digit(s[from]) {
        digits_end(s, from + 1)
    } else {
        from
    }
}

/// `s` without the sign in front of it, if it has one.
pub open spec fn unsigned_part(s: Seq<u8>) -> Seq<u8> {
    if s.len() > 0 && is_sign(s[0]) {
        s.skip(1)
    } else {
        s
    }
}

/// The letters `inf`.
pub open spec fn word_inf() -> Seq<u8> {
    seq![0x69u8, 0x6e, 0x66]
}

/// The letters `infinity`.
pub open spec fn word_infinity() -> Seq<u8> {
    seq![0x69u8, 0x6e, 0x66, 0x69, 0x6e, 0x69, 0x74, 0x79]
}

/// The letters `nan`.
pub open spec fn word_nan() -> Seq<u8> {
    seq![0x6eu8, 0x61, 0x6e]
}

/// `t` is one of the words `inf`, `infinity` and `nan`, in any case.
pub open spec fn is_special(t: Seq<u8>) -> bool {
    same_ignoring_ascii_case(t, word_inf()) || same_ignoring_ascii_case(t, word_infinity())
        || same_ignoring_ascii_case(t, word_nan())
}

/// `t` from place `from` on is an exponent: the letter `e`, an optional
/// sign, and one digit or more up to the end.
pub open spec fn is_exponent_from(t: Seq<u8>, from: int) -> bool {
    &&& 0 <= from < t.len()
    &&& ascii_lower(t[from]) == 0x65
    &&& {
        let k = if from + 1 < t.len() && is_sign(t[from + 1]) {
            from + 2
        } else {
            from + 1
        };
        k < t.len() && digits_end(t, k) == t.len()
    }
}

/// `t` is a number without sign: digits with at most one point among
/// them, at least one digit in all, and an optional exponent.
pub open spec fn is_decimal(t: Seq<u8>) -> bool {
    let a = digits_end(t, 0);
    let pointed = a < t.len() && t[a] == 0x2e;
    let j = if pointed {
        digits_end(t, a + 1)
    } else {
        a
    };
    let digits = if pointed {
        j - 1
    } else {
        j
    };
    digits > 0 && (j == t.len() || is_exponent_from(t, j))
}

/// `s` is a number as the grammar at the head of this file has it.
pub open spec fn is_float_text(s: Seq<u8>) -> bool {
    is_special(unsigned_part(s)) || is_decimal(unsigned_part(s))
}

/// Where the digits stop: within the text, after `from`, at a byte that
/// is no digit, with only digits before it.
pub proof fn lemma_digits_end(s: Seq<u8>, from: int)
    requires
        0 <= from <= s.len(),
    ensures
        from <= digits_end(s, from) <= s.len(),
        forall|k: int| from <= k < digits_end(s, from) ==> is_digit(#[trigger] s[k]),
        digits_end(s, from) < s.len() ==> !is_digit(s[digits_end(s, from)]),
    decreases s.len() - from,
{
    if from < s.len() && is_digit(s[from]) {
        lemma_digits_end(s, from + 1);
    }
}

/// The digits stop at `at`, if only digits stand from `from` to `at` and
/// none stands at `at`.
pub proof fn lemma_digits_end_is(s: Seq<u8>, from: int, at: int)
    requires
        0 <= from <= at <= s.len(),
        forall|k: int| from <= k < at ==> is_digit(#[trigger] s[k]),
        at < s.len() ==> !is_digit(s[at]),
    ensures
        digits_end(s, from) == at,
    decreases at - from,
{
    if from < at {
        assert(is_digit(s[from]));
        lemma_digits_end_is(s, from + 1, at);
    }
}

fn digit(b: u8) -> (r: bool)
    ensures
        r == is_digit(b),
{
    0x30 <= b && b <= 0x39
}

fn sign(b: u8) -> (r: bool)
    ensures
        r == is_sign(b),
{
    b == 0x2b || b == 0x2d
}

fn lower(b: u8) -> (r: u8)
    ensures
        r == ascii_lower(b),
{
    if 0x41 <= b && b <= 0x5a {
        b + 0x20
    } else {
        b
    }
}

/// The first place at or after `from` where `s` holds no digit.
pub(crate) fn skip_digits(s: &[u8], from: usize) -> (r: usize)
    requires
        from <= s@.len(),
    ensures
        r == digits_end(s@, from as int),
        from <= r <= s@.len(),
{
    let mut at: usize = from;
    while at < s.len() && digit(s[at])
        invariant
            from <= at <= s@.len(),
            forall|k: int| from <= k < at ==> is_digit(#[trigger] s@[k]),
        decreases s@.len() - at,
    {
        at += 1;
    }
    proof {
        lemma_digits_end_is(s@, from as int, at as int);
    }
    at
}

/// Whether `s` from place `from` on is `word`, in any case. `word` is in
/// small letters.
fn is_word_from(s: &[u8], from: usize, word: &[u8]) -> (r: bool)
    requires
        from <= s@.len(),
    ensures
        r == same_ignoring_ascii_case(s@.skip(from as int), word@),
{
    if s.len() - from != word.len() {
        return false;
    }
    let ghost rest = s@.skip(from as int);
    let mut i: usize = 0;
    while i < word.len()
        invariant
            i <= word.len(),
            from + word.len() == s.len(),
            rest == s@.skip(from as int),
            forall|k: int| 0 <= k < i ==> ascii_lower(#[trigger] rest[k]) == ascii_lower(word@[k]),
        decreases word.len() - i,
    {
        if lower(s[from + i]) != lower(word[i]) {
            assert(rest[i as int] == s@[from + i]);
            return false;
        }
        assert(rest[i as int] == s@[from + i]);
        i += 1;
    }
    true
}

/// Whether `s` is a number as the grammar at the head of this file has
/// it.
pub fn is_number_text(s: &[u8]) -> (r: bool)
    ensures
        r == is_float_text(s@),
{
    let n: usize = s.len();
    let start: usize = if n > 0 && sign(s[0]) {
        1
    } else {
        0
    };
    let ghost t = unsigned_part(s@);
    assert(t == s@.skip(start as int)) by {
        assert(s@.skip(0) =~= s@);
    }
    let inf: [u8; 3] = [0x69, 0x6e, 0x66];
    let infinity: [u8; 8] = [0x69, 0x6e, 0x66, 0x69, 0x6e, 0x69, 0x74, 0x79];
    let nan: [u8; 3] = [0x6e, 0x61, 0x6e];
    assert(inf@ =~= word_inf());
    assert(infinity@ =~= word_infinity());
    assert(nan@ =~= word_nan());
    if is_word_from(s, start, inf.as_slice()) || is_word_from(s, start, infinity.as_slice())
        || is_word_from(s, start, nan.as_slice()) {
        return true;
    }
    assert(!is_special(t));
    let rest = vstd::slice::slice_subrange(s, start, n);
    assert(rest@ =~= t);
    is_decimal_text(rest)
}

/// Whether `t` is a number without sign.
pub(crate) fn is_decimal_text(t: &[u8]) -> (r: bool)
    ensures
        r == is_decimal(t@),
{
    let n: usize = t.len();
    let a: usize = skip_digits(t, 0);
    let pointed: bool = a < n && t[a] == 0x2e;
    let j: usize = if pointed {
        skip_digits(t, a + 1)
    } else {
        a
    };
    let digits: usize = if pointed {
        j - 1
    } else {
        j
    };
    if digits == 0 {
        return false;
    }
    if j == n {
        return true;
    }
    if lower(t[j]) != 0x65 {
        return false;
    }
    let k: usize = if j + 1 < n && sign(t[j + 1]) {
        j + 2
    } else {
        j + 1
    };
    if k >= n {
        return false;
    }
    skip_digits(t, k) == n
}

/// Every byte of `s` is a digit.
pub open spec fn all_digits(s: Seq<u8>) -> bool {
    forall|k: int| 0 <= k < s.len() ==> is_digit(#[trigger] s[k])
}

/// `Exp`: the letter `e`, an optional sign, and one digit or more.
pub open spec fn is_exp(e: Seq<u8>) -> bool {
    &&& e.len() >= 2
    &&& ascii_lower(e[0]) == 0x65
    &&& unsigned_part(e.skip(1)).len() > 0
    &&& all_digits(unsigned_part(e.skip(1)))
}

/// The part of `Number` before the exponent: digits alone, or digits
/// around a point at place `p`, with one digit at least.
pub open spec fn is_mantissa(m: Seq<u8>, p: int) -> bool {
    ||| m.len() > 0 && all_digits(m)
    ||| 0 <= p < m.len() && m[p] == 0x2e && m.len() >= 2 && all_digits(m.take(p)) && all_digits(
        m.skip(p + 1),
    )
}

/// `Number`: a mantissa, which ends at place `c`, and an optional
/// exponent after it.
pub open spec fn is_number_split(t: Seq<u8>, c: int, p: int) -> bool {
    &&& 0 <= c <= t.len()
    &&& is_mantissa(t.take(c), p)
    &&& (c == t.len() || is_exp(t.skip(c)))
}

/// `Float`, as the grammar at the head of this file has it.
pub open spec fn in_grammar(s: Seq<u8>) -> bool {
    is_special(unsigned_part(s)) || exists|c: int, p: int| is_number_split(unsigned_part(s), c, p)
}

proof fn lemma_exp(t: Seq<u8>, j: int)
    requires
        0 <= j < t.len(),
    ensures
        is_exponent_from(t, j) <==> is_exp(t.skip(j)),
{
    let e = t.skip(j);
    assert(e[0] == t[j]);
    let k = if j + 1 < t.len() && is_sign(t[j + 1]) {
        j + 2
    } else {
        j + 1
    };
    if j + 1 < t.len() {
        assert(e.skip(1)[0] == t[j + 1]);
    }
    let d = unsigned_part(e.skip(1));
    assert(d =~= t.skip(k)) by {
        if j + 1 < t.len() && is_sign(t[j + 1]) {
            assert(e.skip(1).skip(1) =~= t.skip(j + 2));
        } else {
            assert(e.skip(1) =~= t.skip(j + 1));
        }
    }
    if k <= t.len() {
        lemma_digits_end(t, k);
    }
    if is_exponent_from(t, j) {
        assert forall|i: int| 0 <= i < d.len() implies is_digit(#[trigger] d[i]) by {
            assert(d[i] == t[k + i]);
        }
    }
    if is_exp(e) {
        assert(k < t.len());
        assert forall|i: int| k <= i < t.len() implies is_digit(#[trigger] t[i]) by {
            assert(t[i] == d[i - k]);
        }
        lemma_digits_end_is(t, k, t.len() as int);
    }
}

/// The numbers that [`is_float_text`] accepts are exactly those of the
/// grammar at the head of this file.
pub proof fn lemma_float_text_is_the_grammar(s: Seq<u8>)
    ensures
        is_float_text(s) <==> in_grammar(s),
{
    let t = unsigned_part(s);
    let n = t.len() as int;
    lemma_digits_end(t, 0);
    let a = digits_end(t, 0);
    let pointed = a < n && t[a] == 0x2e;
    if pointed {
        lemma_digits_end(t, a + 1);
    }
    let j = if pointed {
        digits_end(t, a + 1)
    } else {
        a
    };
    if j < n {
        lemma_exp(t, j);
    }
    if is_decimal(t) {
        let m = t.take(j);
        if pointed {
            assert(m[a] == t[a]);
            assert forall|k: int| 0 <= k < m.take(a).len() implies is_digit(#[trigger] m.take(a)[k]) by {
                assert(m.take(a)[k] == t[k]);
            }
            assert forall|k: int| 0 <= k < m.skip(a + 1).len() implies is_digit(
                #[trigger] m.skip(a + 1)[k],
            ) by {
                assert(m.skip(a + 1)[k] == t[a + 1 + k]);
            }
            assert(is_mantissa(m, a));
        } else {
            assert forall|k: int| 0 <= k < m.len() implies is_digit(#[trigger] m[k]) by {
                assert(m[k] == t[k]);
            }
            assert(is_mantissa(m, 0));
        }
        assert(is_number_split(t, j, if pointed { a } else { 0 }));
    }
    if exists|c: int, p: int| is_number_split(t, c, p) {
        let (c, p) = choose|c: int, p: int| is_number_split(t, c, p);
        let m = t.take(c);
        if c < n {
            assert(t.skip(c)[0] == t[c]);
            assert(!is_digit(t[c]) && t[c] != 0x2e);
        }
        if m.len() > 0 && all_digits(m) {
            assert forall|k: int| 0 <= k < c implies is_digit(#[trigger] t[k]) by {
                assert(t[k] == m[k]);
            }
            lemma_digits_end_is(t, 0, c);
            assert(a == c && !pointed && j == c);
            if c < n {
                lemma_exp(t, c);
            }
        } else {
            assert(m[p] == t[p]);
            assert forall|k: int| 0 <= k < p implies is_digit(#[trigger] t[k]) by {
                assert(t[k] == m.take(p)[k]);
            }
            lemma_digits_end_is(t, 0, p);
            assert(a == p && pointed);
            assert forall|k: int| p + 1 <= k < c implies is_digit(#[trigger] t[k]) by {
                assert(t[k] == m.skip(p + 1)[k - p - 1]);
            }
            lemma_digits_end_is(t, p + 1, c);
            assert(j == c);
            if c < n {
                lemma_exp(t, c);
            }
        }
        assert(is_decimal(t));
    }
}

} // verus!
