//! What the style engine asks of every element and this tree answers the
//! same way each time: it has no shadow trees, no parts, no custom states,
//! no animations, and only HTML documents without quirks.

use vstd::prelude::*;
use crate::handle::is_element_node;
use crate::handle::is_first_element_child;
use crate::handle::Handle;
use crate::tree::kids;
use crate::tree::Relation;

verus! {

/// How closely a document follows the standards in layout.
#[derive(Clone, Copy, Debug, PartialEq, Eq, Structural)]
pub enum QuirksMode {
    Quirks,
    LimitedQuirks,
    NoQuirks,
}

impl<'a> Handle<'a> {
    /// This handle, as a node.
    pub fn as_node(&self) -> (r: Handle<'a>)
        ensures
            r == *self,
    {
        *self
    }

    /// Whether the document is an HTML document: always.
    pub fn is_html_document(&self) -> (r: bool)
        ensures
            r,
    {
        true
    }

    /// The quirks mode of the document: always none.
    pub fn quirks_mode(&self) -> (r: QuirksMode)
        ensures
            r == QuirksMode::NoQuirks,
    {
        QuirksMode::NoQuirks
    }

    /// Whether the node is in a document: always.
    pub fn is_in_document(&self) -> (r: bool)
        ensures
            r,
    {
        true
    }

    /// Whether the parent is a shadow root: never.
    pub fn parent_node_is_shadow_root(&self) -> (r: bool)
        ensures
            !r,
    {
        false
    }

    /// The host of the shadow tree that holds the element: there is none.
    pub fn containing_shadow_host(&self) -> (r: Option<Handle<'a>>)
        ensures
            r is None,
    {
        None
    }

    /// The shadow root of the element: there is none.
    pub fn shadow_root(&self) -> (r: Option<Handle<'a>>)
        ensures
            r is None,
    {
        None
    }

    /// The shadow root that holds the element: there is none.
    pub fn containing_shadow(&self) -> (r: Option<Handle<'a>>)
        ensures
            r is None,
    {
        None
    }

    /// Whether the node is an HTML element in an HTML document: always.
    pub fn is_html_element_in_html_document(&self) -> (r: bool)
        ensures
            r,
    {
        true
    }

    /// Whether the node is an HTML element: every element is.
    pub fn is_html_element(&self) -> (r: bool)
        ensures
            r == is_element_node(*self.node),
    {
        self.node.is_element()
    }

    /// Whether the node is a MathML element: never.
    pub fn is_mathml_element(&self) -> (r: bool)
        ensures
            !r,
    {
        false
    }

    /// Whether the node is an SVG element: never.
    pub fn is_svg_element(&self) -> (r: bool)
        ensures
            !r,
    {
        false
    }

    /// Whether the node is a `slot` element: never.
    pub fn is_html_slot_element(&self) -> (r: bool)
        ensures
            !r,
    {
        false
    }

    /// The part that `name` is imported as: there is none.
    pub fn imported_part(&self, name: &str) -> (r: Option<String>)
        ensures
            r is None,
    {
        None
    }

    /// Whether the element is the part `name`: never.
    pub fn is_part(&self, name: &str) -> (r: bool)
        ensures
            !r,
    {
        false
    }

    /// Whether the element has a `part` attribute that counts: never.
    pub fn has_part_attr(&self) -> (r: bool)
        ensures
            !r,
    {
        false
    }

    /// Whether the element exports a part: never.
    pub fn exports_any_part(&self) -> (r: bool)
        ensures
            !r,
    {
        false
    }

    /// Whether the element is in the custom state `name`: never.
    pub fn has_custom_state(&self, name: &str) -> (r: bool)
        ensures
            !r,
    {
        false
    }

    /// Whether the element added hashes of its own to the filter: never.
    pub fn add_element_unique_hashes(&self) -> (r: bool)
        ensures
            !r,
    {
        false
    }

    /// Whether the display of the element is to be left as computed:
    /// never.
    pub fn skip_item_display_fixup(&self) -> (r: bool)
        ensures
            !r,
    {
        false
    }

    /// Whether the element may have animations: never.
    pub fn may_have_animations(&self) -> (r: bool)
        ensures
            !r,
    {
        false
    }

    /// Whether the element has animations: never.
    pub fn has_animations(&self) -> (r: bool)
        ensures
            !r,
    {
        false
    }

    /// Whether the element has CSS animations: never.
    pub fn has_css_animations(&self) -> (r: bool)
        ensures
            !r,
    {
        false
    }

    /// Whether the element has CSS transitions: never.
    pub fn has_css_transitions(&self) -> (r: bool)
        ensures
            !r,
    {
        false
    }

    /// The language of the element: none is known.
    pub fn lang_attr(&self) -> (r: Option<String>)
        ensures
            r is None,
    {
        None
    }

    /// Whether the language of the element matches `value`: never.
    pub fn match_element_lang(&self, value: &str) -> (r: bool)
        ensures
            !r,
    {
        false
    }

    /// The names of the element's attributes, in source order. A node
    /// that is no element has none.
    pub fn each_attr_name(&self) -> (r: Vec<&'a str>)
        ensures
            match self.node.raw_dom_data.element() {
                Some(data) => r@.len() == data.attrs@.len() && forall|i: int|
                    0 <= i < r@.len() ==> (#[trigger] r@[i])@ == data.attrs@[i].name@,
                None => r@.len() == 0,
            },
    {
        let mut names: Vec<&'a str> = Vec::new();
        match self.node.element_data() {
            Some(data) => {
                let mut i: usize = 0;
                while i < data.attrs.len()
                    invariant
                        i <= data.attrs.len(),
                        names@.len() == i,
                        forall|k: int| 0 <= k < i ==> (#[trigger] names@[k])@ == data.attrs@[k].name@,
                    decreases data.attrs.len() - i,
                {
                    names.push(data.attrs[i].name.as_str());
                    i += 1;
                }
            },
            None => {},
        }
        names
    }

    /// Whether the node is the `body` element of the document: a `body`
    /// tag that is a child of the first element below the document root.
    pub fn is_html_document_body_element(&self) -> (r: bool)
        requires
            self.wf(),
        ensures
            r == (self.element() is Some && self.element()->0.tag@ == "body"@ && exists|root: usize|
                is_first_element_child(self.nodes(), 0, Some(root)) && kids(
                    self.nodes()[root],
                    Relation::Dom,
                ).contains(self.node.id)),
    {
        if !self.has_local_name("body") {
            return false;
        }
        let document = self.get(0);
        let ghost m = self.nodes();
        match document.first_element_child() {
            None => {
                assert forall|root: usize| !is_first_element_child(m, 0, Some(root)) by {
                    let list = kids(m[0], Relation::Dom);
                    if is_first_element_child(m, 0, Some(root)) {
                        let at = choose|at: int|
                            crate::handle::first_element_from(m, list, 0, at) && list[at] == root;
                        assert(!is_element_node(m[list[at]]));
                    }
                }
                false
            },
            Some(root) => {
                let ghost list = kids(m[0], Relation::Dom);
                let list_of_root = &root.node.children;
                let mut i: usize = 0;
                let mut found = false;
                while i < list_of_root.len() && !found
                    invariant
                        i <= list_of_root.len(),
                        found ==> list_of_root@.contains(self.node.id),
                        !found ==> forall|k: int| 0 <= k < i ==> list_of_root@[k] != self.node.id,
                    decreases list_of_root.len() - i + (if found { 0int } else { 1int }),
                {
                    if list_of_root[i] == self.node.id {
                        found = true;
                    } else {
                        i += 1;
                    }
                }
                proof {
                    let rid = root.node.id;
                    assert(is_first_element_child(m, 0, Some(rid)));
                    assert(list_of_root@ == kids(m[rid], Relation::Dom));
                    assert forall|other: usize| is_first_element_child(m, 0, Some(other)) implies other
                        == rid by {
                        let a = choose|at: int|
                            crate::handle::first_element_from(m, list, 0, at) && list[at] == other;
                        let b = choose|at: int|
                            crate::handle::first_element_from(m, list, 0, at) && list[at] == rid;
                        if a < b {
                            assert(!is_element_node(m[list[a]]));
                        } else if b < a {
                            assert(!is_element_node(m[list[b]]));
                        }
                    }
                }
                found
            },
        }
    }
}

} // verus!
