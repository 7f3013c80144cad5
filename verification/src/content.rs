//! Questions about a whole subtree of the document tree: the text it
//! holds, and whether a block-level box is in it.

use vstd::prelude::*;
use vstd::string::StringExecFns;
use crate::handle::Handle;
use crate::node::Display;
use crate::node::DisplayInside;
use crate::node::DisplayOutside;
use crate::node::Node;
use crate::node::NodeData;
use crate::tree::height;
use crate::tree::kids;
use crate::tree::lemma_heights;
use crate::tree::tree_wf;
use crate::tree::Relation;

verus! {

/// The text of the subtree below `id`, in document order: the content of
/// a text node, the texts of the children of an element or an anonymous
/// block one after the other, and nothing for the other kinds of node.
pub open spec fn text_of(m: Map<usize, Node>, id: usize) -> Seq<char>
    decreases height(m, Relation::Dom, id), kids(m[id], Relation::Dom).len() + 1,
    when tree_wf(m) && m.dom().contains(id)
{
    match m[id].raw_dom_data {
        NodeData::Text { content } => content@,
        NodeData::Element(_) | NodeData::AnonymousBlock(_) => text_of_children(m, id, 0),
        _ => Seq::empty(),
    }
}

/// The texts of the children of `parent` from place `from` on, one after
/// the other.
pub open spec fn text_of_children(m: Map<usize, Node>, parent: usize, from: int) -> Seq<char>
    decreases height(m, Relation::Dom, parent), kids(m[parent], Relation::Dom).len() - from,
    when tree_wf(m) && m.dom().contains(parent) && 0 <= from
{
    let list = kids(m[parent], Relation::Dom);
    if from >= list.len() {
        Seq::empty()
    } else {
        proof {
            lemma_heights(m, Relation::Dom);
        }
        text_of(m, list[from]) + text_of_children(m, parent, from + 1)
    }
}

/// The display of a node: what its style says, and inline flow while it
/// has no style.
pub open spec fn display_of(n: Node) -> Display {
    match n.style_data {
        Some(data) => match data.display {
            Some(d) => d,
            None => Display { outside: DisplayOutside::Inline, inside: DisplayInside::Flow },
        },
        None => Display { outside: DisplayOutside::Inline, inside: DisplayInside::Flow },
    }
}

/// The node `id` is a block, or a block is among its descendants through
/// boxes that lay their children out in flow. A node that makes no box
/// holds no block.
pub open spec fn holds_block(m: Map<usize, Node>, id: usize) -> bool
    decreases height(m, Relation::Dom, id), kids(m[id], Relation::Dom).len() + 1,
    when tree_wf(m) && m.dom().contains(id)
{
    let d = display_of(m[id]);
    match d.outside {
        DisplayOutside::Hidden => false,
        DisplayOutside::Block => true,
        _ => d.inside == DisplayInside::Flow && child_holds_block(m, id, 0),
    }
}

/// One of the children of `parent` from place `from` on holds a block.
pub open spec fn child_holds_block(m: Map<usize, Node>, parent: usize, from: int) -> bool
    decreases height(m, Relation::Dom, parent), kids(m[parent], Relation::Dom).len() - from,
    when tree_wf(m) && m.dom().contains(parent) && 0 <= from
{
    let list = kids(m[parent], Relation::Dom);
    if from >= list.len() {
        false
    } else {
        proof {
            lemma_heights(m, Relation::Dom);
        }
        holds_block(m, list[from]) || child_holds_block(m, parent, from + 1)
    }
}

impl Node {
    /// The computed display of the node, once it has a style.
    pub fn display_style(&self) -> (r: Option<Display>)
        ensures
            r == match self.style_data {
                Some(data) => data.display,
                None => None,
            },
    {
        match self.style_data {
            Some(data) => data.display,
            None => None,
        }
    }
}

impl<'a> Handle<'a> {
    /// The text of the subtree below this node, in document order.
    pub fn text_content(&self) -> (r: String)
        requires
            self.wf(),
        ensures
            r@ == text_of(self.nodes(), self.node.id),
    {
        let mut out = String::new();
        self.write_text_content(&mut out);
        assert(out@ =~= text_of(self.nodes(), self.node.id));
        out
    }

    /// Appends the text of the subtree below this node to `out`.
    #[verifier::loop_isolation(false)]
    pub fn write_text_content(&self, out: &mut String)
        requires
            self.wf(),
        ensures
            final(out)@ == old(out)@ + text_of(self.nodes(), self.node.id),
        decreases height(self.nodes(), Relation::Dom, self.node.id),
    {
        let ghost m = self.nodes();
        let ghost before = out@;
        match &self.node.raw_dom_data {
            NodeData::Text { content } => {
                out.append(content.as_str());
            },
            NodeData::Element(_) | NodeData::AnonymousBlock(_) => {
                let count: usize = self.node.children.len();
                let mut i: usize = 0;
                assert(out@ + text_of_children(m, self.node.id, 0) =~= before + text_of(m, self.node.id));
                while i < count
                    invariant
                        i <= count,
                        out@ + text_of_children(m, self.node.id, i as int) == before + text_of(
                            m,
                            self.node.id,
                        ),
                    decreases count - i,
                {
                    let c = self.node.children[i];
                    assert(c == kids(m[self.node.id], Relation::Dom)[i as int]);
                    proof {
                        lemma_heights(m, Relation::Dom);
                    }
                    let ghost so_far = out@;
                    self.get(c).write_text_content(out);
                    proof {
                        let rest = text_of_children(m, self.node.id, i + 1);
                        assert(text_of_children(m, self.node.id, i as int) == text_of(m, c) + rest);
                        assert(out@ + rest =~= so_far + (text_of(m, c) + rest));
                    }
                    i += 1;
                }
                assert(text_of_children(m, self.node.id, count as int) =~= Seq::<char>::empty());
                assert(out@ =~= out@ + Seq::<char>::empty());
            },
            _ => {
                assert(out@ =~= before + Seq::<char>::empty());
            },
        }
    }

    /// Whether this node, or one of its descendants through boxes in
    /// flow layout, is a block.
    #[verifier::loop_isolation(false)]
    pub fn is_or_contains_block(&self) -> (r: bool)
        requires
            self.wf(),
        ensures
            r == holds_block(self.nodes(), self.node.id),
        decreases height(self.nodes(), Relation::Dom, self.node.id),
    {
        let ghost m = self.nodes();
        let display = match self.node.display_style() {
            Some(d) => d,
            None => Display { outside: DisplayOutside::Inline, inside: DisplayInside::Flow },
        };
        match display.outside {
            DisplayOutside::Hidden => false,
            DisplayOutside::Block => true,
            _ => {
                if display.inside == DisplayInside::Flow {
                    let count: usize = self.node.children.len();
                    let mut i: usize = 0;
                    while i < count
                        invariant
                            i <= count,
                            child_holds_block(m, self.node.id, 0) == child_holds_block(
                                m,
                                self.node.id,
                                i as int,
                            ),
                        decreases count - i,
                    {
                        let c = self.node.children[i];
                        assert(c == kids(m[self.node.id], Relation::Dom)[i as int]);
                        proof {
                            lemma_heights(m, Relation::Dom);
                        }
                        let found = self.get(c).is_or_contains_block();
                        assert(child_holds_block(m, self.node.id, i as int) == (holds_block(m, c)
                            || child_holds_block(m, self.node.id, i + 1)));
                        if found {
                            return true;
                        }
                        i += 1;
                    }
                    assert(!child_holds_block(m, self.node.id, count as int));
                    false
                } else {
                    false
                }
            },
        }
    }
}

} // verus!
