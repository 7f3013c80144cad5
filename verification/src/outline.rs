//! The order and indentation in which a subtree is written out for
//! debugging. Writing the lines is left to the caller.

use vstd::prelude::*;
use vstd::string::StrSliceExecFns;
use crate::handle::Handle;
use crate::node::Node;
use crate::node::NodeData;
use crate::text::ascii_space;
use crate::text::is_ascii_space;
use crate::text::utf8;
use crate::tree::height;
use crate::tree::kids;
use crate::tree::lemma_heights;
use crate::tree::tree_wf;
use crate::tree::Relation;

verus! {

/// One line of a plain listing: the node and how deep it stands.
#[derive(Clone, Copy, Debug, PartialEq, Eq, Structural)]
pub struct TreeLine {
    pub level: usize,
    pub id: usize,
}

/// One step of a markup-like listing.
#[derive(Clone, Copy, Debug, PartialEq, Eq, Structural)]
pub enum WalkEvent {
    /// The line that names the node, indented by so many spaces.
    Enter { indent: usize, id: usize },
    /// The closing tag of an element that has children.
    Leave { indent: usize, id: usize },
}

/// `level` and `step` added, or the largest number where that is too
/// much.
pub open spec fn deeper(level: usize, step: usize) -> usize {
    if level + step <= usize::MAX {
        (level + step) as usize
    } else {
        usize::MAX
    }
}

/// Every byte of `s` is ASCII whitespace.
pub open spec fn is_blank(s: Seq<u8>) -> bool {
    forall|k: int| 0 <= k < s.len() ==> is_ascii_space(#[trigger] s[k])
}

/// The node is a text node that holds nothing but whitespace.
pub open spec fn is_blank_text(n: Node) -> bool {
    match n.raw_dom_data {
        NodeData::Text { content } => is_blank(utf8(content@)),
        _ => false,
    }
}

/// The text `s` without the whitespace at its two ends, as `str::trim`
/// takes it off.
pub uninterp spec fn trimmed(s: Seq<char>) -> Seq<char>;

/// What a listing shows of a text that has been trimmed, and whether it
/// is cut: a text of ten bytes or fewer is shown whole; of a longer one,
/// the first ten characters but for the last of them, nine at most.
pub open spec fn excerpt_of(t: Seq<char>) -> (Seq<char>, bool) {
    if utf8(t).len() > 10 {
        (
            t.take(
                if t.len() < 10 {
                    t.len() - 1
                } else {
                    9
                },
            ),
            true,
        )
    } else {
        (t, false)
    }
}

/// The plain listing of the subtree below `id`: the node itself, then the
/// listings of its children in order, one level deeper.
pub open spec fn lines_of(m: Map<usize, Node>, id: usize, level: usize) -> Seq<TreeLine>
    decreases height(m, Relation::Dom, id), kids(m[id], Relation::Dom).len() + 1,
    when tree_wf(m) && m.dom().contains(id)
{
    seq![TreeLine { level, id }] + lines_of_children(m, id, 0, deeper(level, 1))
}

/// The plain listings of the children of `parent` from place `from` on.
pub open spec fn lines_of_children(m: Map<usize, Node>, parent: usize, from: int, level: usize) -> Seq<
    TreeLine,
>
    decreases height(m, Relation::Dom, parent), kids(m[parent], Relation::Dom).len() - from,
    when tree_wf(m) && m.dom().contains(parent) && 0 <= from
{
    let list = kids(m[parent], Relation::Dom);
    if from >= list.len() {
        Seq::empty()
    } else {
        proof {
            lemma_heights(m, Relation::Dom);
        }
        lines_of(m, list[from], level) + lines_of_children(m, parent, from + 1, level)
    }
}

/// The markup-like listing of the subtree below `id`. A text node that
/// holds only whitespace is left out. Every other node is entered, its
/// children follow two spaces deeper, and an element that has children is
/// left again after them.
pub open spec fn walk_of(m: Map<usize, Node>, id: usize, indent: usize) -> Seq<WalkEvent>
    decreases height(m, Relation::Dom, id), kids(m[id], Relation::Dom).len() + 1,
    when tree_wf(m) && m.dom().contains(id)
{
    if is_blank_text(m[id]) {
        Seq::empty()
    } else {
        seq![WalkEvent::Enter { indent, id }] + walk_of_children(m, id, 0, deeper(indent, 2)) + (if m[id].raw_dom_data
            is Element && kids(m[id], Relation::Dom).len() > 0 {
            seq![WalkEvent::Leave { indent, id }]
        } else {
            Seq::empty()
        })
    }
}

/// The markup-like listings of the children of `parent` from place `from`
/// on.
pub open spec fn walk_of_children(m: Map<usize, Node>, parent: usize, from: int, indent: usize) -> Seq<
    WalkEvent,
>
    decreases height(m, Relation::Dom, parent), kids(m[parent], Relation::Dom).len() - from,
    when tree_wf(m) && m.dom().contains(parent) && 0 <= from
{
    let list = kids(m[parent], Relation::Dom);
    if from >= list.len() {
        Seq::empty()
    } else {
        proof {
            lemma_heights(m, Relation::Dom);
        }
        walk_of(m, list[from], indent) + walk_of_children(m, parent, from + 1, indent)
    }
}

fn step_deeper(level: usize, step: usize) -> (r: usize)
    ensures
        r == deeper(level, step),
{
    match level.checked_add(step) {
        Some(r) => r,
        None => usize::MAX,
    }
}

/// `str::trim`: the text without the whitespace at its two ends.
#[verifier::external_body]
pub(crate) fn trim_text(s: &str) -> (r: &str)
    ensures
        r@ == trimmed(s@),
{
    s.trim()
}

/// What a listing shows of the trimmed text `t`, and whether it is cut.
pub fn excerpt(t: &str) -> (r: (&str, bool))
    ensures
        r.0@ == excerpt_of(t@).0,
        r.1 == excerpt_of(t@).1,
{
    if t.as_bytes().len() > 10 {
        assert(t@.len() > 0);
        let count: usize = t.unicode_len();
        let keep: usize = if count < 10 {
            count - 1
        } else {
            9
        };
        let shown = t.substring_char(0, keep);
        assert(t@.subrange(0, keep as int) =~= t@.take(keep as int));
        (shown, true)
    } else {
        (t, false)
    }
}

/// What a listing shows of the content of a text node, and whether it is
/// cut: the [`excerpt`] of the content without the whitespace at its
/// ends.
pub fn text_excerpt(content: &str) -> (r: (&str, bool))
    ensures
        r.0@ == excerpt_of(trimmed(content@)).0,
        r.1 == excerpt_of(trimmed(content@)).1,
{
    excerpt(trim_text(content))
}

/// Whether every byte of `s` is ASCII whitespace.
pub fn bytes_blank(s: &[u8]) -> (r: bool)
    ensures
        r == is_blank(s@),
{
    let mut i: usize = 0;
    while i < s.len()
        invariant
            i <= s.len(),
            forall|k: int| 0 <= k < i ==> is_ascii_space(#[trigger] s@[k]),
        decreases s.len() - i,
    {
        if !ascii_space(s[i]) {
            return false;
        }
        i += 1;
    }
    true
}

impl Node {
    /// Whether the node is a text node that holds nothing but whitespace.
    pub fn is_blank_text(&self) -> (r: bool)
        ensures
            r == is_blank_text(*self),
    {
        match &self.raw_dom_data {
            NodeData::Text { content } => bytes_blank(content.as_str().as_bytes()),
            _ => false,
        }
    }
}

impl<'a> Handle<'a> {
    /// Appends the plain listing of the subtree below this node to `out`,
    /// with this node at depth `level`.
    #[verifier::loop_isolation(false)]
    pub fn print_tree(&self, level: usize, out: &mut Vec<TreeLine>)
        requires
            self.wf(),
        ensures
            final(out)@ == old(out)@ + lines_of(self.nodes(), self.node.id, level),
        decreases height(self.nodes(), Relation::Dom, self.node.id),
    {
        let ghost m = self.nodes();
        let ghost before = out@;
        let id = self.node.id;
        out.push(TreeLine { level, id });
        let below = step_deeper(level, 1);
        let count: usize = self.node.children.len();
        let mut i: usize = 0;
        assert(out@ + lines_of_children(m, id, 0, below) =~= before + lines_of(m, id, level));
        while i < count
            invariant
                i <= count,
                out@ + lines_of_children(m, id, i as int, below) == before + lines_of(m, id, level),
            decreases count - i,
        {
            let c = self.node.children[i];
            assert(c == kids(m[id], Relation::Dom)[i as int]);
            proof {
                lemma_heights(m, Relation::Dom);
            }
            let ghost so_far = out@;
            self.get(c).print_tree(below, out);
            proof {
                let rest = lines_of_children(m, id, i + 1, below);
                assert(lines_of_children(m, id, i as int, below) == lines_of(m, c, below) + rest);
                assert(out@ + rest =~= so_far + (lines_of(m, c, below) + rest));
            }
            i += 1;
        }
        assert(lines_of_children(m, id, count as int, below) =~= Seq::<TreeLine>::empty());
        assert(out@ =~= out@ + Seq::<TreeLine>::empty());
    }
}

/// Appends the markup-like listing of the subtree below `node` to `out`,
/// with the node indented by `indent` spaces.
#[verifier::loop_isolation(false)]
pub fn walk_tree(indent: usize, node: Handle<'_>, out: &mut Vec<WalkEvent>)
    requires
        node.wf(),
    ensures
        final(out)@ == old(out)@ + walk_of(node.nodes(), node.node.id, indent),
    decreases height(node.nodes(), Relation::Dom, node.node.id),
{
    let ghost m = node.nodes();
    let ghost before = out@;
    let id = node.node.id;
    if node.node.is_blank_text() {
        assert(out@ =~= before + Seq::<WalkEvent>::empty());
        return ;
    }
    out.push(WalkEvent::Enter { indent, id });
    let below = step_deeper(indent, 2);
    let count: usize = node.node.children.len();
    let ghost tail = if m[id].raw_dom_data is Element && count > 0 {
        seq![WalkEvent::Leave { indent, id }]
    } else {
        Seq::<WalkEvent>::empty()
    };
    let mut i: usize = 0;
    assert(out@ + walk_of_children(m, id, 0, below) + tail =~= before + walk_of(m, id, indent));
    while i < count
        invariant
            i <= count,
            out@ + walk_of_children(m, id, i as int, below) + tail == before + walk_of(m, id, indent),
        decreases count - i,
    {
        let c = node.node.children[i];
        assert(c == kids(m[id], Relation::Dom)[i as int]);
        proof {
            lemma_heights(m, Relation::Dom);
        }
        let ghost so_far = out@;
        walk_tree(below, node.get(c), out);
        proof {
            let rest = walk_of_children(m, id, i + 1, below);
            assert(walk_of_children(m, id, i as int, below) == walk_of(m, c, below) + rest);
            assert(out@ + rest + tail =~= so_far + (walk_of(m, c, below) + rest) + tail);
        }
        i += 1;
    }
    assert(walk_of_children(m, id, count as int, below) =~= Seq::<WalkEvent>::empty());
    assert(out@ + tail =~= out@ + Seq::<WalkEvent>::empty() + tail);
    if node.node.is_element() && count > 0 {
        out.push(WalkEvent::Leave { indent, id });
        assert(out@ =~= before + walk_of(m, id, indent));
    } else {
        assert(out@ =~= out@ + tail);
    }
}

} // verus!
