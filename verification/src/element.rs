//! Reading the data of an element: its attributes, identifier and classes.

use vstd::prelude::*;
use vstd::slice::slice_subrange;
use crate::engine::case_eq;
use crate::engine::same_under;
use crate::engine::CaseSensitivity;
use crate::node::Attribute;
use crate::node::ElementData;
use crate::text::bytes_eq;
use crate::text::is_token;
use crate::text::lemma_same_bytes_same_text;
use crate::text::lemma_tokens_after;
use crate::text::next_token;
use crate::text::token_may_start;
use crate::text::utf8;

verus! {

/// The value of the first attribute called `name`, if there is one.
pub open spec fn attr_value(attrs: Seq<Attribute>, name: Seq<char>) -> Option<Seq<char>>
    decreases attrs.len(),
{
    if attrs.len() == 0 {
        None
    } else if attrs[0].name@ == name {
        Some(attrs[0].value@)
    } else {
        attr_value(attrs.drop_first(), name)
    }
}

/// One of the whitespace-separated tokens of `list` is the identifier
/// `name` under the policy `cs`. Only a whole token counts.
pub open spec fn has_token_under(cs: CaseSensitivity, list: Seq<u8>, name: Seq<u8>) -> bool {
    exists|a: int, b: int| is_token(list, a, b) && same_under(cs, #[trigger] list.subrange(a, b), name)
}

/// Whether two texts are equal.
pub fn str_eq(a: &str, b: &str) -> (r: bool)
    ensures
        r == (a@ == b@),
{
    proof {
        lemma_same_bytes_same_text(a@, b@);
    }
    bytes_eq(a.as_bytes(), b.as_bytes())
}

/// Whether one of the whitespace-separated tokens of `list` is the
/// identifier `name` under the policy `cs`.
pub fn has_token(cs: CaseSensitivity, list: &[u8], name: &[u8]) -> (r: bool)
    ensures
        r == has_token_under(cs, list@, name@),
{
    let mut from: usize = 0;
    loop
        invariant
            token_may_start(list@, from as int),
            forall|x: int, y: int|
                is_token(list@, x, y) && x < from ==> !same_under(cs, #[trigger] list@.subrange(x, y), name@),
        decreases list@.len() - from,
    {
        match next_token(list, from) {
            None => {
                proof {
                    assert forall|x: int, y: int| is_token(list@, x, y) implies !same_under(
                        cs,
                        #[trigger] list@.subrange(x, y),
                        name@,
                    ) by {
                        if x >= from {
                            assert(crate::text::is_ascii_space(list@[x]));
                        }
                    }
                }
                return false;
            },
            Some((a, b)) => {
                if case_eq(cs, slice_subrange(list, a, b), name) {
                    return true;
                }
                proof {
                    assert forall|x: int, y: int| is_token(list@, x, y) && x <= b implies !same_under(
                        cs,
                        #[trigger] list@.subrange(x, y),
                        name@,
                    ) by {
                        if x >= from {
                            lemma_tokens_after(list@, from as int, a as int, b as int, x, y);
                        }
                    }
                }
                if b >= list.len() {
                    return false;
                }
                from = b + 1;
            },
        }
    }
}

impl ElementData {
    /// The value of the first attribute called `name`, if there is one.
    pub fn attr(&self, name: &str) -> (r: Option<&str>)
        ensures
            match attr_value(self.attrs@, name@) {
                Some(v) => r is Some && r->0@ == v,
                None => r is None,
            },
    {
        let mut i: usize = 0;
        assert(self.attrs@.skip(0) =~= self.attrs@);
        while i < self.attrs.len()
            invariant
                i <= self.attrs.len(),
                attr_value(self.attrs@, name@) == attr_value(self.attrs@.skip(i as int), name@),
            decreases self.attrs.len() - i,
        {
            let ghost rest = self.attrs@.skip(i as int);
            assert(rest[0] == self.attrs@[i as int]);
            if str_eq(self.attrs[i].name.as_str(), name) {
                return Some(self.attrs[i].value.as_str());
            }
            assert(rest.drop_first() =~= self.attrs@.skip(i + 1));
            i += 1;
        }
        assert(self.attrs@.skip(i as int).len() == 0);
        None
    }

    /// An element with the given tag and attributes. Its identifier is
    /// taken from the `id` attribute here, once.
    pub fn new(tag: String, namespace: String, attrs: Vec<Attribute>) -> (r: ElementData)
        ensures
            r.tag == tag,
            r.namespace == namespace,
            r.attrs == attrs,
            r.checkbox_checked is None,
            match attr_value(attrs@, "id"@) {
                Some(v) => r.id is Some && r.id->0@ == v,
                None => r.id is None,
            },
    {
        let mut data = ElementData { tag, namespace, attrs, id: None, checkbox_checked: None };
        let id = match data.attr("id") {
            Some(v) => Some(v.to_owned()),
            None => None,
        };
        data.id = id;
        data
    }

    /// Whether the tag is called `name`.
    pub fn has_tag(&self, name: &str) -> (r: bool)
        ensures
            r == (self.tag@ == name@),
    {
        str_eq(self.tag.as_str(), name)
    }

    /// Whether the cached identifier is `id` under the policy `cs`. An
    /// element without identifier has none.
    pub fn has_id(&self, id: &str, cs: CaseSensitivity) -> (r: bool)
        ensures
            r == (self.id is Some && same_under(cs, utf8(self.id->0@), utf8(id@))),
    {
        match &self.id {
            Some(own) => case_eq(cs, own.as_str().as_bytes(), id.as_bytes()),
            None => false,
        }
    }

    /// Whether one of the whitespace-separated tokens of the `class`
    /// attribute is `name` under the policy `cs`.
    pub fn has_class(&self, name: &str, cs: CaseSensitivity) -> (r: bool)
        ensures
            r == match attr_value(self.attrs@, "class"@) {
                Some(list) => has_token_under(cs, utf8(list), utf8(name@)),
                None => false,
            },
    {
        match self.attr("class") {
            Some(list) => has_token(cs, list.as_bytes(), name.as_bytes()),
            None => false,
        }
    }
}

impl ElementData {
    /// Where the classes of the element stand in the bytes of its `class`
    /// attribute: the bounds of each whitespace-separated token, in order.
    /// An element without that attribute has no class.
    pub fn each_class(&self) -> (r: Vec<(usize, usize)>)
        ensures
            match attr_value(self.attrs@, "class"@) {
                Some(list) => crate::text::lists_tokens(utf8(list), r@),
                None => r@.len() == 0,
            },
    {
        match self.attr("class") {
            Some(list) => crate::text::token_bounds(list.as_bytes()),
            None => Vec::new(),
        }
    }
}

} // verus!
