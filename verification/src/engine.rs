//! What the selector engine itself defines and the tree only applies: how
//! two identifiers compare under a case policy, and which selector flags
//! go to an element and which to its parent.

use vstd::prelude::*;

verus! {

/// How identifiers are compared.
#[derive(Clone, Copy, Debug, PartialEq, Eq, Structural)]
pub enum CaseSensitivity {
    CaseSensitive,
    AsciiCaseInsensitive,
}

/// `b` with an ASCII capital letter replaced by its small letter.
pub open spec fn ascii_lower(b: u8) -> u8 {
    if 0x41 <= b <= 0x5a {
        (b + 0x20) as u8
    } else {
        b
    }
}

/// `a` and `b` are the same but for the case of ASCII letters.
pub open spec fn same_ignoring_ascii_case(a: Seq<u8>, b: Seq<u8>) -> bool {
    a.len() == b.len() && forall|i: int| 0 <= i < a.len() ==> ascii_lower(a[i]) == ascii_lower(b[i])
}

/// `a` and `b` are the same identifier under the policy `cs`.
pub open spec fn same_under(cs: CaseSensitivity, a: Seq<u8>, b: Seq<u8>) -> bool {
    match cs {
        CaseSensitivity::CaseSensitive => a == b,
        CaseSensitivity::AsciiCaseInsensitive => same_ignoring_ascii_case(a, b),
    }
}

/// The flags of `bits` that `ElementSelectorFlags::for_self` keeps: those
/// that concern the element itself.
pub open spec fn self_flags(bits: usize) -> usize {
    bits & 0x3e0
}

/// The flags of `bits` that `ElementSelectorFlags::for_parent` keeps:
/// those that concern the element's parent.
pub open spec fn parent_flags(bits: usize) -> usize {
    bits & 0x81f
}

/// `selectors::attr::CaseSensitivity::eq`: byte equality under
/// `CaseSensitive`, and equality up to the case of ASCII letters under
/// `AsciiCaseInsensitive`.
#[verifier::external_body]
pub(crate) fn case_eq(cs: CaseSensitivity, a: &[u8], b: &[u8]) -> (r: bool)
    ensures
        r == same_under(cs, a@, b@),
{
    let policy = match cs {
        CaseSensitivity::CaseSensitive => selectors::attr::CaseSensitivity::CaseSensitive,
        CaseSensitivity::AsciiCaseInsensitive => selectors::attr::CaseSensitivity::AsciiCaseInsensitive,
    };
    policy.eq(a, b)
}

/// `selectors::matching::ElementSelectorFlags::for_self`, on the bits of
/// the flag set: the result keeps the five flags in the mask `0x3e0` and
/// drops every other bit.
#[verifier::external_body]
pub(crate) fn flags_for_self(bits: usize) -> (r: usize)
    ensures
        r == self_flags(bits),
{
    selectors::matching::ElementSelectorFlags::from_bits_retain(bits).for_self().bits()
}

/// `selectors::matching::ElementSelectorFlags::for_parent`, on the bits of
/// the flag set: the result keeps the six flags in the mask `0x81f` and
/// drops every other bit.
#[verifier::external_body]
pub(crate) fn flags_for_parent(bits: usize) -> (r: usize)
    ensures
        r == parent_flags(bits),
{
    selectors::matching::ElementSelectorFlags::from_bits_retain(bits).for_parent().bits()
}

/// The flags of `bits` that tell in which direction a relative selector
/// search reached the element: sibling, ancestor, or both.
pub open spec fn search_direction_flags(bits: usize) -> usize {
    bits & 0x300
}

/// `ElementSelectorFlags::intersection` with the constant
/// `RELATIVE_SELECTOR_SEARCH_DIRECTION_ANCESTOR_SIBLING`, on the bits of
/// the flag set: the result keeps the two flags in the mask `0x300`.
#[verifier::external_body]
pub(crate) fn flags_search_direction(bits: usize) -> (r: usize)
    ensures
        r == search_direction_flags(bits),
{
    let all = selectors::matching::ElementSelectorFlags::from_bits_retain(bits);
    let both = selectors::matching::ElementSelectorFlags::RELATIVE_SELECTOR_SEARCH_DIRECTION_ANCESTOR_SIBLING;
    all.intersection(both).bits()
}

} // verus!
