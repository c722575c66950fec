//! The syntax tree of C source, as plain values.

use vstd::prelude::*;

use crate::text;

verus! {

broadcast use crate::text::group_views;

/// A node of the syntax tree.
#[derive(Debug)]
pub struct SyntaxNode {
    /// The grammar's name for this kind of node.
    pub kind: String,
    /// Whether the grammar names the node, as it does not with punctuation.
    pub named: bool,
    /// The line that the node starts on, counted from zero.
    pub row: usize,
    /// The source text that the node covers.
    pub text: String,
    pub children: Vec<SyntaxNode>,
    /// The names of the node's fields, each with the place of the child that it holds.
    pub fields: Vec<(String, usize)>,
}

pub struct SyntaxView {
    pub kind: Seq<char>,
    pub named: bool,
    pub row: usize,
    pub text: Seq<char>,
    pub children: Seq<SyntaxView>,
    pub fields: Seq<(Seq<char>, usize)>,
}

/// The view of a node, down to its leaves.
pub open spec fn node_view(n: SyntaxNode) -> SyntaxView
    decreases n,
{
    SyntaxView {
        kind: n.kind@,
        named: n.named,
        row: n.row,
        text: n.text@,
        children: Seq::new(
            n.children@.len(),
            |i: int|
                if 0 <= i < n.children@.len() {
                    node_view(n.children@[i])
                } else {
                    arbitrary()
                },
        ),
        fields: text::views(n.fields@),
    }
}

impl View for SyntaxNode {
    type V = SyntaxView;

    open spec fn view(&self) -> SyntaxView {
        node_view(*self)
    }
}

/// The view of a node holds the views of its children.
pub broadcast proof fn lemma_node_children(n: SyntaxNode)
    ensures
        (#[trigger] n@).children == text::views(n.children@),
{
    assert(n@.children =~= text::views(n.children@));
}

// ── Reading a node ───────────────────────────────────────────────────────────

/// The place that a field's name stands for.
pub open spec fn field_index(fields: Seq<(Seq<char>, usize)>, name: Seq<char>) -> Option<usize>
    decreases fields.len(),
{
    if fields.len() == 0 {
        None
    } else if fields[0].0 == name {
        Some(fields[0].1)
    } else {
        field_index(fields.drop_first(), name)
    }
}

/// Whether a node is an operand: named, and not a comment, which may stand anywhere.
pub open spec fn is_operand(node: SyntaxView) -> bool {
    node.named && node.kind != "comment"@
}

/// The operands among the nodes, in order.
pub open spec fn operands(nodes: Seq<SyntaxView>) -> Seq<SyntaxView>
    decreases nodes.len(),
{
    if nodes.len() == 0 {
        Seq::empty()
    } else if is_operand(nodes.last()) {
        operands(nodes.drop_last()).push(nodes.last())
    } else {
        operands(nodes.drop_last())
    }
}

impl SyntaxView {
    /// The child that the field `name` holds.
    pub open spec fn field(self, name: Seq<char>) -> Option<SyntaxView> {
        match field_index(self.fields, name) {
            Some(i) if i < self.children.len() => Some(self.children[i as int]),
            _ => None,
        }
    }

    /// The first operand among the children.
    pub open spec fn first_operand(self) -> Option<SyntaxView> {
        if operands(self.children).len() == 0 {
            None
        } else {
            Some(operands(self.children)[0])
        }
    }

    /// The line that the node starts on, counted from one.
    pub open spec fn line(self) -> usize {
        if self.row < usize::MAX {
            (self.row + 1) as usize
        } else {
            usize::MAX
        }
    }
}

/// An operand is one of the nodes.
proof fn lemma_operand_is_node(nodes: Seq<SyntaxView>, k: int)
    requires
        0 <= k < operands(nodes).len(),
    ensures
        exists|i: int| 0 <= i < nodes.len() && #[trigger] nodes[i] == operands(nodes)[k],
    decreases nodes.len(),
{
    if nodes.len() > 0 {
        let rest = operands(nodes.drop_last());
        if k < rest.len() {
            lemma_operand_is_node(nodes.drop_last(), k);
            let i = choose|i: int| 0 <= i < nodes.drop_last().len() && #[trigger] nodes.drop_last()[i] == rest[k];
            assert(nodes[i] == rest[k]);
        } else {
            assert(nodes[nodes.len() - 1] == operands(nodes)[k]);
        }
    }
}

/// A child found by its field is a smaller tree.
pub proof fn lemma_field_is_smaller(node: SyntaxView, field: Seq<char>)
    ensures
        node.field(field) matches Some(n) ==> decreases_to!(node => n),
{
}

/// The first operand is a smaller tree.
pub proof fn lemma_first_operand_is_smaller(node: SyntaxView)
    ensures
        node.first_operand() matches Some(n) ==> decreases_to!(node => n),
{
    if node.first_operand() is Some {
        lemma_operand_is_node(node.children, 0);
    }
}

/// The operands of the first `n` nodes come first.
proof fn lemma_operands_prefix(nodes: Seq<SyntaxView>, n: int)
    requires
        0 <= n <= nodes.len(),
    ensures
        operands(nodes.take(n)).len() <= operands(nodes).len(),
        forall|k: int|
            0 <= k < operands(nodes.take(n)).len() ==> operands(nodes)[k] == #[trigger] operands(
                nodes.take(n),
            )[k],
    decreases nodes.len() - n,
{
    if n < nodes.len() {
        lemma_operands_prefix(nodes, n + 1);
        assert(nodes.take(n + 1).drop_last() =~= nodes.take(n));
        let a = operands(nodes.take(n));
        let b = operands(nodes.take(n + 1));
        assert forall|k: int| 0 <= k < a.len() implies operands(nodes)[k] == #[trigger] a[k] by {
            assert(a[k] == b[k]);
        }
    } else {
        assert(nodes.take(n) =~= nodes);
    }
}

impl SyntaxNode {
    /// The line that the node starts on, counted from one.
    pub fn line(&self) -> (r: usize)
        ensures
            r == self@.line(),
    {
        if self.row < usize::MAX {
            self.row + 1
        } else {
            usize::MAX
        }
    }

    /// Whether the node is an operand.
    pub fn is_operand(&self) -> (r: bool)
        ensures
            r == is_operand(self@),
    {
        self.named && !text::same_text(self.kind.as_str(), "comment")
    }

    /// The child that the field `field` holds.
    pub fn child_by_field_name(&self, field: &str) -> (r: Option<&SyntaxNode>)
        ensures
            match r {
                Some(n) => self@.field(field@) == Some(n@) && decreases_to!(self => n),
                None => self@.field(field@) is None,
            },
    {
        broadcast use lemma_node_children;
        let ghost all = self@.fields;
        let mut i: usize = 0;
        assert(all.skip(0) =~= all);
        while i < self.fields.len()
            invariant
                all == self@.fields,
                all == text::views(self.fields@),
                i <= self.fields@.len(),
                field_index(all, field@) == field_index(all.skip(i as int), field@),
            decreases self.fields.len() - i,
        {
            assert(all.skip(i as int)[0] == self.fields@[i as int]@);
            if text::same_text(self.fields[i].0.as_str(), field) {
                let k: usize = self.fields[i].1;
                if k < self.children.len() {
                    assert(decreases_to!(self => self.children@));
                    return Some(&self.children[k]);
                }
                return None;
            }
            assert(all.skip(i as int).drop_first() =~= all.skip(i + 1));
            i += 1;
        }
        None
    }

    /// The first operand among the children.
    pub fn first_operand(&self) -> (r: Option<&SyntaxNode>)
        ensures
            match r {
                Some(n) => self@.first_operand() == Some(n@) && decreases_to!(self => n),
                None => self@.first_operand() is None,
            },
    {
        broadcast use lemma_node_children;
        let ghost all = self@.children;
        let mut i: usize = 0;
        while i < self.children.len()
            invariant
                all == self@.children,
                all == text::views(self.children@),
                i <= self.children@.len(),
                operands(all.take(i as int)).len() == 0,
            decreases self.children.len() - i,
        {
            assert(all.take(i + 1).drop_last() =~= all.take(i as int));
            assert(all.take(i + 1).last() == self.children@[i as int]@);
            if self.children[i].is_operand() {
                proof {
                    lemma_operands_prefix(all, i + 1);
                    assert(operands(all.take(i + 1))[0] == self.children@[i as int]@);
                }
                assert(decreases_to!(self => self.children@));
                return Some(&self.children[i]);
            }
            i += 1;
        }
        assert(all.take(all.len() as int) =~= all);
        None
    }

    /// The operands among the children, in order.
    pub fn operand_nodes(&self) -> (r: Vec<&SyntaxNode>)
        ensures
            text::views(r@) == operands(self@.children),
    {
        broadcast use lemma_node_children;
        let ghost all = self@.children;
        let mut out: Vec<&SyntaxNode> = Vec::new();
        let mut i: usize = 0;
        while i < self.children.len()
            invariant
                all == text::views(self.children@),
                i <= self.children@.len(),
                text::views(out@) == operands(all.take(i as int)),
            decreases self.children.len() - i,
        {
            assert(all.take(i + 1).drop_last() =~= all.take(i as int));
            assert(all.take(i + 1).last() == self.children@[i as int]@);
            if self.children[i].is_operand() {
                out.push(&self.children[i]);
            }
            i += 1;
        }
        assert(all.take(all.len() as int) =~= all);
        out
    }
}

} // verus!
