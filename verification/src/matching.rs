//! The answers a selector-matching engine asks of an element: tag and
//! namespace, attribute selectors, identifier and class, pseudo-classes
//! and pseudo-elements.

use vstd::prelude::*;
use crate::element::attr_value;
use crate::element::has_token_under;
use crate::element::str_eq;
use crate::engine::same_under;
use crate::engine::CaseSensitivity;
use crate::handle::Handle;
use crate::node::ElementData;
use crate::node::Node;
use crate::node::NodeData;
use crate::node::STATE_FOCUS;
use crate::node::STATE_HOVER;
use crate::text::bytes_contain;
use crate::text::bytes_dash_match;
use crate::text::bytes_end_with;
use crate::text::bytes_eq;
use crate::text::bytes_include;
use crate::text::bytes_start_with;
use crate::text::dash_matches;
use crate::text::has_prefix;
use crate::text::has_substring;
use crate::text::has_suffix;
use crate::text::includes_token;
use crate::text::utf8;

verus! {

/// How an attribute selector compares the attribute's value with its
/// operand.
#[derive(Clone, Copy, Debug, PartialEq, Eq, Structural)]
pub enum AttrSelectorOperator {
    /// `[attr=value]`
    Equal,
    /// `[attr~=value]`
    Includes,
    /// `[attr|=value]`
    DashMatch,
    /// `[attr^=value]`
    Prefix,
    /// `[attr*=value]`
    Substring,
    /// `[attr$=value]`
    Suffix,
}

/// What an attribute selector asks of an attribute.
#[derive(Clone, Copy, Debug)]
pub enum AttrSelectorOperation<'a> {
    /// `[attr]`: the attribute is there.
    Exists,
    /// The attribute is there and its value stands in the given relation to
    /// `value`. The case policy is carried but not applied: values are
    /// always compared as they are.
    WithValue { operator: AttrSelectorOperator, case_sensitivity: CaseSensitivity, value: &'a str },
}

/// The pseudo-classes that are not tree-structural.
#[derive(Clone, Copy, Debug, PartialEq, Eq, Structural)]
pub enum NonTSPseudoClass {
    Active,
    AnyLink,
    Autofill,
    Checked,
    CustomState,
    DefaultChoice,
    Defined,
    Disabled,
    Enabled,
    Focus,
    FocusWithin,
    FocusVisible,
    Fullscreen,
    Hover,
    InRange,
    Indeterminate,
    Invalid,
    Lang,
    Link,
    Modal,
    MozMeterOptimum,
    MozMeterSubOptimum,
    MozMeterSubSubOptimum,
    Open,
    Optional,
    OutOfRange,
    PlaceholderShown,
    PopoverOpen,
    ReadOnly,
    ReadWrite,
    Required,
    ServoNonZeroBorder,
    Target,
    UserInvalid,
    UserValid,
    Valid,
    Visited,
}

/// The pseudo-elements a selector can name.
#[derive(Clone, Copy, Debug, PartialEq, Eq, Structural)]
pub enum PseudoElement {
    After,
    Before,
    Selection,
    FirstLetter,
    Backdrop,
    DetailsContent,
    Marker,
    ColorSwatch,
    FileSelectorButton,
    Placeholder,
    SliderFill,
    SliderThumb,
    SliderTrack,
    MozProgressBar,
    ServoTextControlInnerContainer,
    ServoTextControlInnerEditor,
    ServoAnonymousBox,
    ServoAnonymousTable,
    ServoAnonymousTableCell,
    ServoAnonymousTableRow,
    ServoTableGrid,
    ServoTableWrapper,
}

/// `value` stands in the relation `operator` to `operand`, byte for byte.
pub open spec fn operator_holds(operator: AttrSelectorOperator, value: Seq<u8>, operand: Seq<u8>) -> bool {
    match operator {
        AttrSelectorOperator::Equal => value == operand,
        AttrSelectorOperator::Includes => includes_token(value, operand),
        AttrSelectorOperator::DashMatch => dash_matches(value, operand),
        AttrSelectorOperator::Prefix => has_prefix(value, operand),
        AttrSelectorOperator::Substring => has_substring(value, operand),
        AttrSelectorOperator::Suffix => has_suffix(value, operand),
    }
}

/// An attribute with the value `value` (none, for `None`) meets
/// `operation`. A missing attribute meets no operation.
pub open spec fn operation_holds(operation: AttrSelectorOperation, value: Option<Seq<char>>) -> bool {
    match value {
        None => false,
        Some(v) => match operation {
            AttrSelectorOperation::Exists => true,
            AttrSelectorOperation::WithValue { operator, value, .. } => operator_holds(
                operator,
                utf8(v),
                utf8(value@),
            ),
        },
    }
}

/// The element is a hyperlink: an `a` or `area` tag with an `href`
/// attribute.
pub open spec fn is_hyperlink(data: ElementData) -> bool {
    (data.tag@ == "a"@ || data.tag@ == "area"@) && attr_value(data.attrs@, "href"@) is Some
}

/// The node matches the pseudo-class. A class that the table does not
/// name matches nothing.
pub open spec fn pseudo_class_holds(n: Node, class: NonTSPseudoClass) -> bool {
    match class {
        NonTSPseudoClass::AnyLink | NonTSPseudoClass::Link => n.raw_dom_data.element() is Some
            && is_hyperlink(n.raw_dom_data.element()->0),
        NonTSPseudoClass::Checked => n.raw_dom_data.element() is Some
            && n.raw_dom_data.element()->0.checkbox_checked == Some(true),
        NonTSPseudoClass::Hover => n.element_state.has(STATE_HOVER),
        NonTSPseudoClass::Focus => n.element_state.has(STATE_FOCUS),
        _ => false,
    }
}

/// Whether `value` stands in the relation `operator` to `operand`.
pub fn operator_matches(operator: AttrSelectorOperator, value: &str, operand: &str) -> (r: bool)
    ensures
        r == operator_holds(operator, utf8(value@), utf8(operand@)),
{
    let v = value.as_bytes();
    let o = operand.as_bytes();
    match operator {
        AttrSelectorOperator::Equal => bytes_eq(v, o),
        AttrSelectorOperator::Includes => bytes_include(v, o),
        AttrSelectorOperator::DashMatch => bytes_dash_match(v, o),
        AttrSelectorOperator::Prefix => bytes_start_with(v, o),
        AttrSelectorOperator::Substring => bytes_contain(v, o),
        AttrSelectorOperator::Suffix => bytes_end_with(v, o),
    }
}

impl ElementData {
    /// Whether the element is a hyperlink.
    pub fn is_hyperlink(&self) -> (r: bool)
        ensures
            r == is_hyperlink(*self),
    {
        (self.has_tag("a") || self.has_tag("area")) && self.attr("href").is_some()
    }
}

impl<'a> Handle<'a> {
    /// What the node holds as an element or an anonymous block.
    pub open spec fn element(&self) -> Option<ElementData> {
        self.node.raw_dom_data.element()
    }

    /// Whether the node is an element, or an anonymous block, whose tag is
    /// called `local_name`.
    pub fn has_local_name(&self, local_name: &str) -> (r: bool)
        ensures
            r == (self.element() is Some && self.element()->0.tag@ == local_name@),
    {
        match self.node.element_data() {
            Some(data) => data.has_tag(local_name),
            None => false,
        }
    }

    /// Whether the tag of the element lives in the namespace `ns`.
    pub fn has_namespace(&self, ns: &str) -> (r: bool)
        requires
            self.element() is Some,
        ensures
            r == (self.element()->0.namespace@ == ns@),
    {
        match self.node.element_data() {
            Some(data) => str_eq(data.namespace.as_str(), ns),
            None => false,
        }
    }

    /// The local name of the element's tag.
    pub fn local_name(&self) -> (r: &'a str)
        requires
            self.element() is Some,
        ensures
            r@ == self.element()->0.tag@,
    {
        match self.node.element_data() {
            Some(data) => data.tag.as_str(),
            None => "",
        }
    }

    /// The namespace of the element's tag.
    pub fn namespace(&self) -> (r: &'a str)
        requires
            self.element() is Some,
        ensures
            r@ == self.element()->0.namespace@,
    {
        match self.node.element_data() {
            Some(data) => data.namespace.as_str(),
            None => "",
        }
    }

    /// Whether two elements are of the same type. The answer is always
    /// no, which keeps the engine from sharing styles by type.
    pub fn is_same_type(&self, other: &Handle<'a>) -> (r: bool)
        ensures
            !r,
    {
        false
    }

    /// Whether the attribute called `local_name` meets `operation`.
    ///
    /// A node without attributes, or without that attribute, matches
    /// nothing. Namespaces are not consulted, and values are compared as
    /// they are whatever the case policy says.
    pub fn attr_matches(&self, local_name: &str, operation: &AttrSelectorOperation) -> (r: bool)
        ensures
            r == match self.element() {
                Some(data) => operation_holds(*operation, attr_value(data.attrs@, local_name@)),
                None => false,
            },
    {
        let data = match self.node.element_data() {
            Some(data) => data,
            None => {
                return false;
            },
        };
        let attr = match data.attr(local_name) {
            Some(attr) => attr,
            None => {
                return false;
            },
        };
        match operation {
            AttrSelectorOperation::Exists => true,
            AttrSelectorOperation::WithValue { operator, case_sensitivity: _, value } => operator_matches(
                *operator,
                attr,
                value,
            ),
        }
    }

    /// Whether the node matches the pseudo-class: links, checked
    /// checkboxes, hover and focus. Every other class matches nothing.
    pub fn match_non_ts_pseudo_class(&self, pseudo_class: &NonTSPseudoClass) -> (r: bool)
        ensures
            r == pseudo_class_holds(*self.node, *pseudo_class),
    {
        match pseudo_class {
            NonTSPseudoClass::AnyLink | NonTSPseudoClass::Link => match self.node.element_data() {
                Some(data) => data.is_hyperlink(),
                None => false,
            },
            NonTSPseudoClass::Checked => match self.node.element_data() {
                Some(data) => match data.checkbox_checked {
                    Some(checked) => checked,
                    None => false,
                },
                None => false,
            },
            NonTSPseudoClass::Hover => self.node.element_state.contains(STATE_HOVER),
            NonTSPseudoClass::Focus => self.node.element_state.contains(STATE_FOCUS),
            _ => false,
        }
    }

    /// Whether the node is the pseudo-element `pe`: only an anonymous
    /// block is one, and it is the anonymous box.
    pub fn match_pseudo_element(&self, pe: &PseudoElement) -> (r: bool)
        ensures
            r == (self.node.raw_dom_data is AnonymousBlock && *pe == PseudoElement::ServoAnonymousBox),
    {
        match self.node.raw_dom_data {
            NodeData::AnonymousBlock(_) => match pe {
                PseudoElement::ServoAnonymousBox => true,
                _ => false,
            },
            _ => false,
        }
    }

    /// Whether the node is an `a` element.
    pub fn is_link(&self) -> (r: bool)
        ensures
            r == (self.element() is Some && self.element()->0.tag@ == "a"@),
    {
        self.has_local_name("a")
    }

    /// Whether the element's identifier is `id` under the policy `cs`.
    pub fn has_id(&self, id: &str, cs: CaseSensitivity) -> (r: bool)
        ensures
            r == (self.element() is Some && self.element()->0.id is Some && same_under(
                cs,
                utf8(self.element()->0.id->0@),
                utf8(id@),
            )),
    {
        match self.node.element_data() {
            Some(data) => data.has_id(id, cs),
            None => false,
        }
    }

    /// Whether one of the whitespace-separated tokens of the `class`
    /// attribute is `name` under the policy `cs`. Only a whole token
    /// counts.
    pub fn has_class(&self, name: &str, cs: CaseSensitivity) -> (r: bool)
        ensures
            r == (self.element() is Some && attr_value(self.element()->0.attrs@, "class"@) is Some
                && has_token_under(
                cs,
                utf8(attr_value(self.element()->0.attrs@, "class"@)->0),
                utf8(name@),
            )),
    {
        match self.node.element_data() {
            Some(data) => data.has_class(name, cs),
            None => false,
        }
    }

    /// Where the classes of the element stand in the bytes of its `class`
    /// attribute: the bounds of each whitespace-separated token, in order.
    /// A node without that attribute has no class.
    pub fn each_class(&self) -> (r: Vec<(usize, usize)>)
        ensures
            match self.element() {
                Some(data) => match attr_value(data.attrs@, "class"@) {
                    Some(list) => crate::text::lists_tokens(utf8(list), r@),
                    None => r@.len() == 0,
                },
                None => r@.len() == 0,
            },
    {
        match self.node.element_data() {
            Some(data) => data.each_class(),
            None => Vec::new(),
        }
    }

    /// The element's cached identifier.
    pub fn id(&self) -> (r: Option<&'a str>)
        ensures
            match r {
                Some(s) => self.element() is Some && self.element()->0.id is Some && s@
                    == self.element()->0.id->0@,
                None => self.element() is None || self.element()->0.id is None,
            },
    {
        match self.node.element_data() {
            Some(data) => match &data.id {
                Some(s) => Some(s.as_str()),
                None => None,
            },
            None => None,
        }
    }
}

} // verus!
