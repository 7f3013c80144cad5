//! The node record stored in each slot of the arena.

use vstd::prelude::*;

verus! {

/// Interaction state of an element, as a bit set.
#[derive(Clone, Copy, Debug)]
pub struct ElementState {
    pub bits: u16,
}

/// The element is being activated.
pub const STATE_ACTIVE: u16 = 1;

/// The element has focus.
pub const STATE_FOCUS: u16 = 2;

/// The pointer is over the element.
pub const STATE_HOVER: u16 = 4;

impl ElementState {
    /// Every bit of `flags` is set in this state.
    pub open spec fn has(self, flags: u16) -> bool {
        self.bits & flags == flags
    }

    /// The state with no bit set.
    pub fn empty() -> (s: ElementState)
        ensures
            s.bits == 0,
    {
        ElementState { bits: 0 }
    }

    /// Whether every bit of `flags` is set.
    pub fn contains(&self, flags: u16) -> (r: bool)
        ensures
            r == self.has(flags),
    {
        self.bits & flags == flags
    }

    /// This state with the bits of `flags` set as well.
    pub fn with(&self, flags: u16) -> (s: ElementState)
        ensures
            s.bits == self.bits | flags,
            s.has(flags),
    {
        let bits: u16 = self.bits;
        assert((bits | flags) & flags == flags) by (bit_vector);
        ElementState { bits: bits | flags }
    }

    /// This state with the bits of `flags` cleared.
    pub fn without(&self, flags: u16) -> (s: ElementState)
        ensures
            s.bits == self.bits & !flags,
            flags != 0 ==> !s.has(flags),
    {
        let bits: u16 = self.bits;
        assert(flags != 0 ==> (bits & !flags) & flags != flags) by (bit_vector);
        ElementState { bits: bits & !flags }
    }
}

/// One attribute of an element.
#[derive(Debug)]
pub struct Attribute {
    pub name: String,
    pub value: String,
}

/// What an element node holds.
#[derive(Debug)]
pub struct ElementData {
    /// Local name of the tag.
    pub tag: String,
    /// Namespace of the tag.
    pub namespace: String,
    /// Attributes in source order.
    pub attrs: Vec<Attribute>,
    /// Identifier taken once from the `id` attribute.
    pub id: Option<String>,
    /// For a checkbox input, whether it is checked.
    pub checkbox_checked: Option<bool>,
}

/// The kind of a node, with what that kind holds.
#[derive(Debug)]
pub enum NodeData {
    Document,
    Text { content: String },
    Comment,
    Element(ElementData),
    AnonymousBlock(ElementData),
}

/// Outer display role of a box.
#[derive(Clone, Copy, Debug, PartialEq, Eq, Structural)]
pub enum DisplayOutside {
    Hidden,
    Inline,
    Block,
    TableCaption,
    InternalTable,
}

/// Inner display role of a box.
#[derive(Clone, Copy, Debug, PartialEq, Eq, Structural)]
pub enum DisplayInside {
    Hidden,
    Contents,
    Flow,
    FlowRoot,
    Flex,
    Grid,
    Table,
    TableRowGroup,
    TableColumn,
    TableColumnGroup,
    TableHeaderGroup,
    TableFooterGroup,
    TableRow,
    TableCell,
}

/// Computed display of a box.
#[derive(Clone, Copy, Debug)]
pub struct Display {
    pub outside: DisplayOutside,
    pub inside: DisplayInside,
}

/// What the cascade keeps for an element once it has been styled.
#[derive(Clone, Copy, Debug)]
pub struct StyleData {
    /// Computed display, once a style has been computed.
    pub display: Option<Display>,
}

/// A point or an offset, in layout units.
#[derive(Clone, Copy, Debug, PartialEq, Eq, Structural)]
pub struct Point {
    pub x: i64,
    pub y: i64,
}

/// Position and size that layout gave a box, relative to its layout parent.
#[derive(Clone, Copy, Debug)]
pub struct Layout {
    pub x: i32,
    pub y: i32,
    pub width: u32,
    pub height: u32,
}

/// One slot of the arena.
#[derive(Debug)]
pub struct Node {
    /// Index of this node in the arena.
    pub id: usize,
    /// Parent in the document tree.
    pub parent: Option<usize>,
    /// Children in document order.
    pub children: Vec<usize>,
    pub raw_dom_data: NodeData,
    pub element_state: ElementState,
    /// Flags that selector matching left on this node; they only grow.
    pub selector_flags: usize,
    pub has_snapshot: bool,
    pub snapshot_handled: bool,
    /// Style slot, empty until first ensured.
    pub style_data: Option<StyleData>,
    /// Parent in the layout tree.
    pub layout_parent: Option<usize>,
    /// Children in the layout tree, in layout order; empty until layout
    /// has run.
    pub layout_children: Vec<usize>,
    pub final_layout: Layout,
    /// How far the content is scrolled.
    pub scroll_x: i32,
    pub scroll_y: i32,
}

impl NodeData {
    /// What an element or an anonymous block holds; nothing for the other
    /// kinds.
    pub open spec fn element(self) -> Option<ElementData> {
        match self {
            NodeData::Element(data) => Some(data),
            NodeData::AnonymousBlock(data) => Some(data),
            _ => None,
        }
    }

    /// Executable form of [`NodeData::element`].
    pub fn downcast_element(&self) -> (r: Option<&ElementData>)
        ensures
            r == match self.element() {
                Some(data) => Some(&data),
                None => None,
            },
    {
        match self {
            NodeData::Element(data) => Some(data),
            NodeData::AnonymousBlock(data) => Some(data),
            _ => None,
        }
    }
}

impl Node {
    /// Whether the node is an element. An anonymous block is none.
    pub fn is_element(&self) -> (r: bool)
        ensures
            r == (self.raw_dom_data is Element),
    {
        match self.raw_dom_data {
            NodeData::Element(_) => true,
            _ => false,
        }
    }

    /// Whether the node is a text node.
    pub fn is_text_node(&self) -> (r: bool)
        ensures
            r == (self.raw_dom_data is Text),
    {
        match self.raw_dom_data {
            NodeData::Text { .. } => true,
            _ => false,
        }
    }

    /// What the node holds as an element or an anonymous block.
    pub fn element_data(&self) -> (r: Option<&ElementData>)
        ensures
            r == match self.raw_dom_data.element() {
                Some(data) => Some(&data),
                None => None,
            },
    {
        self.raw_dom_data.downcast_element()
    }
}

} // verus!
