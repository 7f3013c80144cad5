//! Laws that relate several functions of the library.

use vstd::prelude::*;
use crate::element::has_token_under;
use crate::engine::parent_flags;
use crate::engine::same_under;
use crate::engine::self_flags;
use crate::engine::CaseSensitivity;
use crate::hints::color_of;
use crate::hints::hex_value;
use crate::hints::size_of;
use crate::hints::SizeView;
use crate::number::is_decimal;
use crate::number::is_special;
use crate::number::unsigned_part;
use crate::size_number::below_limit;
use crate::size_number::is_zero_number;
use crate::size_number::lemma_size_text_is_a_number;
use crate::node::Node;
use crate::node::StyleData;
use crate::outline::is_blank_text;
use crate::outline::walk_of;
use crate::outline::walk_of_children;
use crate::style::ensured;
use crate::style::flags_after_child;
use crate::style::flags_after_self;
use crate::text::includes_token;
use crate::text::is_ascii_space;
use crate::text::is_token;
use crate::tree::kids;
use crate::tree::tree_wf;
use crate::tree::Relation;

verus! {

/// A word: one byte or more, none of them whitespace.
pub open spec fn is_word(w: Seq<u8>) -> bool {
    w.len() > 0 && forall|k: int| 0 <= k < w.len() ==> !is_ascii_space(#[trigger] w[k])
}

/// The words of `words` one after the other, with one space between
/// neighbours: a class attribute that lists exactly these classes.
pub open spec fn spaced(words: Seq<Seq<u8>>) -> Seq<u8>
    decreases words.len(),
{
    if words.len() == 0 {
        Seq::empty()
    } else if words.len() == 1 {
        words[0]
    } else {
        spaced(words.drop_last()) + seq![0x20u8] + words.last()
    }
}

/// One of `words` is the identifier `x` under the policy `cs`.
pub open spec fn names_under(cs: CaseSensitivity, words: Seq<Seq<u8>>, x: Seq<u8>) -> bool {
    exists|i: int| 0 <= i < words.len() && same_under(cs, #[trigger] words[i], x)
}

/// Under the case-sensitive policy a class list has a class exactly when
/// one of its tokens is that class, byte for byte.
pub proof fn lemma_case_sensitive_is_exact(list: Seq<u8>, x: Seq<u8>)
    ensures
        has_token_under(CaseSensitivity::CaseSensitive, list, x) <==> includes_token(list, x),
{
    if has_token_under(CaseSensitivity::CaseSensitive, list, x) {
        let (a, b) = choose|a: int, b: int|
            is_token(list, a, b) && same_under(
                CaseSensitivity::CaseSensitive,
                #[trigger] list.subrange(a, b),
                x,
            );
        assert(is_token(list, a, b) && list.subrange(a, b) == x);
    }
    if includes_token(list, x) {
        let (a, b) = choose|a: int, b: int| is_token(list, a, b) && #[trigger] list.subrange(a, b) == x;
        assert(same_under(CaseSensitivity::CaseSensitive, list.subrange(a, b), x));
    }
}

/// A word is its own and only token.
pub proof fn lemma_tokens_of_word(cs: CaseSensitivity, w: Seq<u8>, x: Seq<u8>)
    requires
        is_word(w),
    ensures
        has_token_under(cs, w, x) <==> same_under(cs, w, x),
{
    assert(w.subrange(0, w.len() as int) =~= w);
    if same_under(cs, w, x) {
        assert(is_token(w, 0, w.len() as int));
        assert(same_under(cs, w.subrange(0, w.len() as int), x));
    }
    if has_token_under(cs, w, x) {
        let (a, b) = choose|a: int, b: int|
            is_token(w, a, b) && same_under(cs, #[trigger] w.subrange(a, b), x);
        if a > 0 {
            assert(!is_ascii_space(w[a - 1]));
        }
        if b < w.len() {
            assert(!is_ascii_space(w[b]));
        }
    }
}

/// The tokens of a text followed by a space and a word are the tokens of
/// the text, and the word.
pub proof fn lemma_tokens_of_appended(cs: CaseSensitivity, s: Seq<u8>, w: Seq<u8>, x: Seq<u8>)
    requires
        is_word(w),
    ensures
        has_token_under(cs, s + seq![0x20u8] + w, x) <==> (has_token_under(cs, s, x) || same_under(
            cs,
            w,
            x,
        )),
{
    let l = s + seq![0x20u8] + w;
    let n = s.len() as int;
    assert(l[n] == 0x20u8);
    assert(forall|k: int| 0 <= k < n ==> l[k] == s[k]);
    assert(forall|k: int| n < k < l.len() ==> l[k] == w[k - n - 1]);
    if has_token_under(cs, s, x) {
        let (a, b) = choose|a: int, b: int|
            is_token(s, a, b) && same_under(cs, #[trigger] s.subrange(a, b), x);
        assert(l.subrange(a, b) =~= s.subrange(a, b));
        assert(is_token(l, a, b)) by {
            assert forall|k: int| a <= k < b implies !is_ascii_space(#[trigger] l[k]) by {
                assert(!is_ascii_space(s[k]));
            }
        }
        assert(same_under(cs, l.subrange(a, b), x));
    }
    if same_under(cs, w, x) {
        assert(l.subrange(n + 1, l.len() as int) =~= w);
        assert(is_token(l, n + 1, l.len() as int)) by {
            assert forall|k: int| n + 1 <= k < l.len() implies !is_ascii_space(#[trigger] l[k]) by {
                assert(!is_ascii_space(w[k - n - 1]));
            }
        }
        assert(same_under(cs, l.subrange(n + 1, l.len() as int), x));
    }
    if has_token_under(cs, l, x) {
        let (a, b) = choose|a: int, b: int|
            is_token(l, a, b) && same_under(cs, #[trigger] l.subrange(a, b), x);
        if a <= n {
            if b > n {
                assert(!is_ascii_space(l[n]));
            }
            assert(l.subrange(a, b) =~= s.subrange(a, b));
            assert(is_token(s, a, b)) by {
                assert forall|k: int| a <= k < b implies !is_ascii_space(#[trigger] s[k]) by {
                    assert(!is_ascii_space(l[k]));
                }
            }
            assert(same_under(cs, s.subrange(a, b), x));
        } else {
            if a > n + 1 {
                assert(!is_ascii_space(w[a - 1 - n - 1]));
                assert(!is_ascii_space(l[a - 1]));
            }
            if b < l.len() {
                assert(!is_ascii_space(w[b - n - 1]));
                assert(!is_ascii_space(l[b]));
            }
            assert(l.subrange(a, b) =~= w);
        }
    }
}

/// An element whose `class` attribute lists the words `words`, with a
/// space between neighbours, has the class `x` exactly when `x` is one of
/// the words under the case policy. A part of a word, or several words
/// with their spaces, is no class of it.
pub proof fn lemma_classes_are_the_words(cs: CaseSensitivity, words: Seq<Seq<u8>>, x: Seq<u8>)
    requires
        forall|i: int| 0 <= i < words.len() ==> is_word(#[trigger] words[i]),
    ensures
        has_token_under(cs, spaced(words), x) <==> names_under(cs, words, x),
    decreases words.len(),
{
    if words.len() == 0 {
        if has_token_under(cs, spaced(words), x) {
            let (a, b) = choose|a: int, b: int|
                is_token(spaced(words), a, b) && same_under(cs, #[trigger] spaced(words).subrange(a, b), x);
            assert(false);
        }
    } else if words.len() == 1 {
        lemma_tokens_of_word(cs, words[0], x);
        if same_under(cs, words[0], x) {
            assert(names_under(cs, words, x));
        }
    } else {
        let front = words.drop_last();
        let w = words.last();
        lemma_classes_are_the_words(cs, front, x);
        lemma_tokens_of_appended(cs, spaced(front), w, x);
        if names_under(cs, front, x) {
            let i = choose|i: int| 0 <= i < front.len() && same_under(cs, #[trigger] front[i], x);
            assert(same_under(cs, words[i], x));
        }
        if same_under(cs, w, x) {
            assert(same_under(cs, words[words.len() - 1], x));
        }
        if names_under(cs, words, x) {
            let i = choose|i: int| 0 <= i < words.len() && same_under(cs, #[trigger] words[i], x);
            if i < front.len() {
                assert(same_under(cs, front[i], x));
            }
        }
    }
}

/// Ensuring the style slot a second time changes nothing: data that is
/// there is never reset.
pub proof fn lemma_ensure_twice(slot: Option<StyleData>)
    ensures
        ensured(Some(ensured(slot))) == ensured(slot),
        slot is Some ==> ensured(slot) == slot->0,
{
}

/// Marking the snapshot as handled a second time changes nothing.
pub proof fn lemma_handled_twice(n: Node)
    ensures
        ({
            let once = Node { snapshot_handled: true, ..n };
            let twice = Node { snapshot_handled: true, ..once };
            twice == once && once.snapshot_handled
        }),
{
}

/// Selector flags only grow: what was set on a node stays set when more
/// flags are applied, to the node itself or to one of its children.
pub proof fn lemma_flags_only_grow(own: usize, flags: usize)
    ensures
        flags_after_self(own, flags) & own == own,
        flags_after_child(own, flags) & own == own,
{
    assert((own | (flags & 0x3e0)) & own == own) by (bit_vector);
    assert((own | (flags & 0x81f)) & own == own) by (bit_vector);
}

/// No flag goes both to the element and to its parent.
pub proof fn lemma_flags_split(flags: usize)
    ensures
        self_flags(flags) & parent_flags(flags) == 0,
{
    assert((flags & 0x3e0) & (flags & 0x81f) == 0) by (bit_vector);
}

/// A text stands for a colour only if it is a `#` followed by three or by
/// six hexadecimal digits; a text without the `#`, or of another length,
/// stands for none. Each channel of the short form is below 16.
pub proof fn lemma_color_shape(s: Seq<u8>)
    ensures
        color_of(s) is Some ==> s.len() > 0 && s[0] == 0x23 && (s.len() == 4 || s.len() == 7)
            && forall|k: int| 1 <= k < s.len() ==> hex_value(#[trigger] s[k]) is Some,
        color_of(s) is Some && s.len() == 4 ==> color_of(s)->0.r < 16
            && color_of(s)->0.g < 16 && color_of(s)->0.b < 16,
{
}

/// Whether a node is empty does not depend on what a listing shows: a
/// node whose children are all text of nothing but whitespace has
/// children, though the markup-like listing shows none of them.
pub proof fn lemma_blank_children_are_children(m: Map<usize, Node>, id: usize, from: int, indent: usize)
    requires
        tree_wf(m),
        m.dom().contains(id),
        0 <= from,
        forall|i: int|
            from <= i < kids(m[id], Relation::Dom).len()
                ==> is_blank_text(
                m[#[trigger] kids(m[id], Relation::Dom)[i]],
            ),
    ensures
        walk_of_children(m, id, from, indent).len() == 0,
    decreases kids(m[id], Relation::Dom).len() - from,
{
    let list = kids(m[id], Relation::Dom);
    if from < list.len() {
        let c = kids(m[id], Relation::Dom)[from];
        assert(m.dom().contains(c));
        assert(is_blank_text(m[c]));
        assert(walk_of(m, c, indent).len() == 0);
        lemma_blank_children_are_children(m, id, from + 1, indent);
    }
}

/// A size is never below zero, never one of the words `inf`, `infinity`
/// and `nan`, and never beyond what a finite length can be: whatever
/// declaration a `width` or `height` stands for, its number is a plain
/// number of the grammar, has a minus sign only if it is zero, and is
/// zero or below `2^128 - 2^103`.
pub proof fn lemma_sizes_are_not_negative(s: Seq<u8>)
    requires
        size_of(s) is Some,
    ensures
        ({
            let number = match size_of(s)->0 {
                SizeView::Px(n) => n,
                SizeView::Percent(n) => n,
            };
            let t = unsigned_part(number);
            &&& is_decimal(t)
            &&& !is_special(t)
            &&& (number.len() > 0 && number[0] == 0x2d ==> is_zero_number(t))
            &&& below_limit(t)
        }),
{
    let number = match size_of(s)->0 {
        SizeView::Px(n) => n,
        SizeView::Percent(n) => n,
    };
    lemma_size_text_is_a_number(number);
}

} // verus!
