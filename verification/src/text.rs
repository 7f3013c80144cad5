//! Byte-level text predicates used by attribute and class matching.
//!
//! Every predicate is stated over the UTF-8 bytes of a text. Two texts have
//! the same bytes exactly when they are the same text, see
//! [`lemma_same_bytes_same_text`].

use vstd::prelude::*;
use vstd::utf8::encode_utf8;
use vstd::utf8::decode_utf8;
use vstd::utf8::encode_utf8_decode_utf8;

verus! {

/// The UTF-8 bytes of a text.
pub open spec fn utf8(s: Seq<char>) -> Seq<u8> {
    encode_utf8(s)
}

/// Texts are equal exactly when their UTF-8 bytes are.
pub proof fn lemma_same_bytes_same_text(a: Seq<char>, b: Seq<char>)
    ensures
        (utf8(a) == utf8(b)) <==> (a == b),
{
    encode_utf8_decode_utf8(a);
    encode_utf8_decode_utf8(b);
    if utf8(a) == utf8(b) {
        assert(decode_utf8(encode_utf8(a)) == decode_utf8(encode_utf8(b)));
    }
}

/// The bytes that HTML treats as ASCII whitespace: space, tab, line feed,
/// form feed and carriage return.
pub open spec fn is_ascii_space(b: u8) -> bool {
    b == 0x20 || b == 0x09 || b == 0x0a || b == 0x0c || b == 0x0d
}

/// `p` occurs in `s` starting at offset `at`.
pub open spec fn occurs_at(s: Seq<u8>, at: int, p: Seq<u8>) -> bool {
    0 <= at && at + p.len() <= s.len() && s.subrange(at, at + p.len()) == p
}

/// `s` begins with `p`.
pub open spec fn has_prefix(s: Seq<u8>, p: Seq<u8>) -> bool {
    occurs_at(s, 0, p)
}

/// `s` ends with `p`.
pub open spec fn has_suffix(s: Seq<u8>, p: Seq<u8>) -> bool {
    occurs_at(s, s.len() - p.len(), p)
}

/// `p` occurs somewhere in `s`.
pub open spec fn has_substring(s: Seq<u8>, p: Seq<u8>) -> bool {
    exists|at: int| occurs_at(s, at, p)
}

/// `s` is `p` itself, or `p` followed by a hyphen and anything after it.
pub open spec fn dash_matches(s: Seq<u8>, p: Seq<u8>) -> bool {
    s == p || has_prefix(s, p.push(0x2d))
}

/// `[a, b)` is a whitespace-separated token of `s`: a maximal non-empty
/// run of bytes none of which is ASCII whitespace.
pub open spec fn is_token(s: Seq<u8>, a: int, b: int) -> bool {
    &&& 0 <= a < b <= s.len()
    &&& forall|k: int| a <= k < b ==> !is_ascii_space(#[trigger] s[k])
    &&& (a == 0 || is_ascii_space(s[a - 1]))
    &&& (b == s.len() || is_ascii_space(s[b]))
}

/// One of the whitespace-separated tokens of `s` is exactly `p`.
pub open spec fn includes_token(s: Seq<u8>, p: Seq<u8>) -> bool {
    exists|a: int, b: int| is_token(s, a, b) && #[trigger] s.subrange(a, b) == p
}

/// A token starts at `a` only where the text starts or whitespace precedes.
pub open spec fn token_may_start(s: Seq<u8>, a: int) -> bool {
    0 <= a <= s.len() && (a == 0 || is_ascii_space(s[a - 1]))
}

/// Executable test for [`is_ascii_space`].
pub fn ascii_space(b: u8) -> (r: bool)
    ensures
        r == is_ascii_space(b),
{
    b == 0x20 || b == 0x09 || b == 0x0a || b == 0x0c || b == 0x0d
}

/// Whether two byte strings are equal.
pub fn bytes_eq(a: &[u8], b: &[u8]) -> (r: bool)
    ensures
        r == (a@ == b@),
{
    if a.len() != b.len() {
        return false;
    }
    let mut i: usize = 0;
    while i < a.len()
        invariant
            i <= a.len(),
            a.len() == b.len(),
            forall|k: int| 0 <= k < i ==> a@[k] == b@[k],
        decreases a.len() - i,
    {
        if a[i] != b[i] {
            return false;
        }
        i += 1;
    }
    assert(a@ =~= b@);
    true
}

/// Whether `p` occurs in `s` at offset `at`.
pub fn bytes_occur_at(s: &[u8], at: usize, p: &[u8]) -> (r: bool)
    ensures
        r == occurs_at(s@, at as int, p@),
{
    if p.len() > s.len() || at > s.len() - p.len() {
        return false;
    }
    let mut i: usize = 0;
    while i < p.len()
        invariant
            i <= p.len(),
            at + p.len() <= s.len(),
            forall|k: int| 0 <= k < i ==> s@[at + k] == p@[k],
        decreases p.len() - i,
    {
        if s[at + i] != p[i] {
            assert(s@.subrange(at as int, at + p@.len())[i as int] != p@[i as int]);
            return false;
        }
        i += 1;
    }
    assert(s@.subrange(at as int, at + p@.len()) =~= p@);
    true
}

/// Whether `s` begins with `p`.
pub fn bytes_start_with(s: &[u8], p: &[u8]) -> (r: bool)
    ensures
        r == has_prefix(s@, p@),
{
    bytes_occur_at(s, 0, p)
}

/// Whether `s` ends with `p`.
pub fn bytes_end_with(s: &[u8], p: &[u8]) -> (r: bool)
    ensures
        r == has_suffix(s@, p@),
{
    if p.len() > s.len() {
        return false;
    }
    bytes_occur_at(s, s.len() - p.len(), p)
}

/// Whether `p` occurs somewhere in `s`.
pub fn bytes_contain(s: &[u8], p: &[u8]) -> (r: bool)
    ensures
        r == has_substring(s@, p@),
{
    if p.len() > s.len() {
        return false;
    }
    let last: usize = s.len() - p.len();
    let mut at: usize = 0;
    loop
        invariant
            at <= last,
            last == s.len() - p.len(),
            forall|k: int| 0 <= k < at ==> !occurs_at(s@, k, p@),
        decreases last - at,
    {
        if bytes_occur_at(s, at, p) {
            return true;
        }
        if at == last {
            return false;
        }
        at += 1;
    }
}

/// Whether `s` is `p`, or begins with `p` and a hyphen.
pub fn bytes_dash_match(s: &[u8], p: &[u8]) -> (r: bool)
    ensures
        r == dash_matches(s@, p@),
{
    if !bytes_occur_at(s, 0, p) {
        proof {
            let q = p@.push(0x2d);
            if s@ == p@ {
                assert(s@.subrange(0, p@.len() as int) =~= s@);
            }
            if has_prefix(s@, q) {
                let head = s@.subrange(0, q.len() as int);
                assert(head == q);
                assert(s@.subrange(0, p@.len() as int) =~= head.subrange(0, p@.len() as int));
                assert(q.subrange(0, p@.len() as int) =~= p@);
            }
        }
        return false;
    }
    if s.len() == p.len() {
        assert(s@.subrange(0, p@.len() as int) =~= s@);
        return true;
    }
    let next: u8 = s[p.len()];
    proof {
        let q = p@.push(0x2d);
        if next == 0x2d {
            assert(s@.subrange(0, q.len() as int) =~= q) by {
                assert forall|k: int| 0 <= k < q.len() implies s@.subrange(0, q.len() as int)[k]
                    == q[k] by {
                    if k < p@.len() {
                        assert(s@.subrange(0, p@.len() as int)[k] == p@[k]);
                    }
                }
            }
        } else {
            if has_prefix(s@, q) {
                assert(s@.subrange(0, q.len() as int)[p@.len() as int] == q[p@.len() as int]);
            }
        }
    }
    next == 0x2d
}

/// Finds the first token of `s` that starts at or after `from`.
///
/// Returns its bounds, or `None` when only whitespace is left.
pub fn next_token(s: &[u8], from: usize) -> (r: Option<(usize, usize)>)
    requires
        token_may_start(s@, from as int),
    ensures
        match r {
            Some((a, b)) => {
                &&& from <= a
                &&& is_token(s@, a as int, b as int)
                &&& forall|k: int| from <= k < a ==> is_ascii_space(#[trigger] s@[k])
            },
            None => forall|k: int| from <= k < s@.len() ==> is_ascii_space(#[trigger] s@[k]),
        },
{
    let n: usize = s.len();
    let mut a: usize = from;
    while a < n && ascii_space(s[a])
        invariant
            from <= a <= n,
            n == s@.len(),
            forall|k: int| from <= k < a ==> is_ascii_space(#[trigger] s@[k]),
        decreases n - a,
    {
        a += 1;
    }
    if a >= n {
        return None;
    }
    let mut b: usize = a + 1;
    while b < n && !ascii_space(s[b])
        invariant
            a < b <= n,
            n == s@.len(),
            forall|k: int| a <= k < b ==> !is_ascii_space(#[trigger] s@[k]),
        decreases n - b,
    {
        b += 1;
    }
    Some((a, b))
}

/// Every token of `s` that starts at or after a possible start `from` is
/// either the first one found from there, or starts after that one's end.
pub proof fn lemma_tokens_after(s: Seq<u8>, from: int, a: int, b: int, x: int, y: int)
    requires
        from <= a,
        is_token(s, a, b),
        forall|k: int| from <= k < a ==> is_ascii_space(#[trigger] s[k]),
        is_token(s, x, y),
        from <= x,
    ensures
        (x == a && y == b) || b < x,
{
    assert(!is_ascii_space(s[x]));
    if x < a {
        assert(is_ascii_space(s[x]));
    } else if x == a {
        if y < b {
            assert(!is_ascii_space(s[y]));
        } else if b < y {
            assert(!is_ascii_space(s[b]));
        }
    } else if x <= b {
        if x == b {
            assert(is_ascii_space(s[b]));
        } else {
            assert(!is_ascii_space(s[x - 1]));
        }
    }
}

/// Whether one of the whitespace-separated tokens of `s` is exactly `p`.
pub fn bytes_include(s: &[u8], p: &[u8]) -> (r: bool)
    ensures
        r == includes_token(s@, p@),
{
    let mut from: usize = 0;
    loop
        invariant
            token_may_start(s@, from as int),
            forall|x: int, y: int|
                is_token(s@, x, y) && x < from ==> #[trigger] s@.subrange(x, y) != p@,
        decreases s@.len() - from,
    {
        match next_token(s, from) {
            None => {
                proof {
                    assert forall|x: int, y: int| is_token(s@, x, y) implies #[trigger] s@.subrange(
                        x,
                        y,
                    ) != p@ by {
                        if x >= from {
                            assert(is_ascii_space(s@[x]));
                        }
                    }
                }
                return false;
            },
            Some((a, b)) => {
                if b - a == p.len() && bytes_occur_at(s, a, p) {
                    return true;
                }
                proof {
                    assert forall|x: int, y: int| is_token(s@, x, y) && x <= b implies #[trigger] s@.subrange(
                        x,
                        y,
                    ) != p@ by {
                        if x >= from {
                            lemma_tokens_after(s@, from as int, a as int, b as int, x, y);
                            if s@.subrange(a as int, b as int) == p@ {
                                assert(s@.subrange(a as int, b as int).len() == p@.len());
                            }
                        }
                    }
                }
                if b >= s.len() {
                    proof {
                        assert forall|x: int, y: int| is_token(s@, x, y) implies #[trigger] s@.subrange(
                            x,
                            y,
                        ) != p@ by {}
                    }
                    return false;
                }
                from = b + 1;
            },
        }
    }
}

/// `r` lists the tokens of `s`: each entry bounds a token, the entries
/// stand in the order of the text, and no token is left out.
pub open spec fn lists_tokens(s: Seq<u8>, r: Seq<(usize, usize)>) -> bool {
    &&& forall|i: int| 0 <= i < r.len() ==> is_token(s, (#[trigger] r[i]).0 as int, r[i].1 as int)
    &&& forall|i: int, j: int| 0 <= i < j < r.len() ==> (#[trigger] r[i]).1 < (#[trigger] r[j]).0
    &&& forall|a: int, b: int| #[trigger]
        is_token(s, a, b) ==> exists|i: int| 0 <= i < r.len() && #[trigger] r[i] == (a as usize, b as usize)
}

/// The bounds of the whitespace-separated tokens of `s`, in the order of
/// the text.
pub fn token_bounds(s: &[u8]) -> (r: Vec<(usize, usize)>)
    ensures
        lists_tokens(s@, r@),
{
    let mut out: Vec<(usize, usize)> = Vec::new();
    let mut from: usize = 0;
    loop
        invariant
            token_may_start(s@, from as int),
            forall|i: int| 0 <= i < out@.len() ==> is_token(s@, (#[trigger] out@[i]).0 as int, out@[i].1 as int),
            forall|i: int| 0 <= i < out@.len() ==> (#[trigger] out@[i]).1 < from,
            forall|i: int, j: int| 0 <= i < j < out@.len() ==> (#[trigger] out@[i]).1 < (#[trigger] out@[j]).0,
            forall|a: int, b: int| #[trigger]
                is_token(s@, a, b) && a < from ==> exists|i: int|
                    0 <= i < out@.len() && #[trigger] out@[i] == (a as usize, b as usize),
        decreases s@.len() - from,
    {
        match next_token(s, from) {
            None => {
                proof {
                    assert forall|a: int, b: int| #[trigger] is_token(s@, a, b) implies exists|i: int|
                        0 <= i < out@.len() && #[trigger] out@[i] == (a as usize, b as usize) by {
                        if a >= from {
                            assert(is_ascii_space(s@[a]));
                        }
                    }
                }
                return out;
            },
            Some((a, b)) => {
                let ghost before = out@;
                out.push((a, b));
                proof {
                    assert forall|x: int, y: int| #[trigger] is_token(s@, x, y) && x <= b implies exists|
                        i: int,
                    | 0 <= i < out@.len() && #[trigger] out@[i] == (x as usize, y as usize) by {
                        if x < from {
                            let i = choose|i: int|
                                0 <= i < before.len() && #[trigger] before[i] == (x as usize, y as usize);
                            assert(out@[i] == before[i]);
                        } else {
                            lemma_tokens_after(s@, from as int, a as int, b as int, x, y);
                            assert(out@[before.len() as int] == (a, b));
                        }
                    }
                    assert forall|i: int, j: int| 0 <= i < j < out@.len() implies (#[trigger] out@[i]).1 < (
                    #[trigger] out@[j]).0 by {
                        if j == before.len() {
                            assert(out@[i] == before[i]);
                        } else {
                            assert(out@[i] == before[i]);
                            assert(out@[j] == before[j]);
                        }
                    }
                    assert forall|i: int| 0 <= i < out@.len() implies is_token(
                        s@,
                        (#[trigger] out@[i]).0 as int,
                        out@[i].1 as int,
                    ) by {
                        if i < before.len() {
                            assert(out@[i] == before[i]);
                        }
                    }
                }
                if b >= s.len() {
                    return out;
                }
                proof {
                    assert forall|i: int| 0 <= i < out@.len() implies (#[trigger] out@[i]).1 < b + 1 by {
                        if i < before.len() {
                            assert(out@[i] == before[i]);
                        }
                    }
                }
                from = b + 1;
            },
        }
    }
}

} // verus!
