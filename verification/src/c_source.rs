//! Reading C source with the `tree-sitter` crate and its C grammar.
//!
//! The crate parses the text; the wrappers below read the tree node by node,
//! and the verified functions rebuild it as plain values.

use vstd::prelude::*;

use tree_sitter::{Node, Tree};

use crate::syntax::{SyntaxNode, SyntaxView};
use crate::text;

verus! {

broadcast use crate::text::group_views;

/// `tree_sitter::Tree`: a parsed source text.
#[verifier::external_type_specification]
#[verifier::external_body]
pub struct ExTree(tree_sitter::Tree);

/// `tree_sitter::Node`: a node of a parsed source text.
#[verifier::external_type_specification]
#[verifier::external_body]
pub struct ExNode<'tree>(tree_sitter::Node<'tree>);

/// What a node of a parsed tree holds. Its text is given by the byte range that it
/// covers in the source, and a field by the place of the child in it.
pub struct NodeContents {
    pub kind: Seq<char>,
    pub named: bool,
    pub row: usize,
    pub start: usize,
    pub end: usize,
    pub children: Seq<NodeContents>,
    pub fields: Map<Seq<char>, int>,
}

/// What the C grammar makes of a source text: the root of its tree, or `None`
/// where parsing gives nothing.
pub uninterp spec fn c_tree(source: Seq<char>) -> Option<NodeContents>;

/// The root of a parsed tree.
pub uninterp spec fn tree_contents(tree: Tree) -> NodeContents;

/// What a node of a parsed tree holds, down to its leaves.
pub uninterp spec fn node_contents(node: Node<'_>) -> NodeContents;

/// The number by which a node is told from the other nodes of its tree.
pub uninterp spec fn node_ident(node: Node<'_>) -> usize;

/// The numbers of a node's children.
pub uninterp spec fn child_idents(node: Node<'_>) -> Seq<usize>;

/// `Parser::parse` of tree-sitter on the whole source, with the language of
/// tree-sitter-c. The tree that comes back holds what `c_tree` says of the text,
/// and none comes back exactly where `c_tree` has none.
#[verifier::external_body]
fn parse_source(source: &str) -> (r: Option<Tree>)
    ensures
        match r {
            Some(tree) => c_tree(source@) == Some(tree_contents(tree)),
            None => c_tree(source@) is None,
        },
{
    let mut parser = tree_sitter::Parser::new();
    parser.set_language(&tree_sitter_c::LANGUAGE.into()).expect("tree-sitter-c grammar must load");
    parser.parse(source, None)
}

/// `Tree::root_node`: the root of the tree.
#[verifier::external_body]
fn root_node(tree: &Tree) -> (r: Node<'_>)
    ensures
        node_contents(r) == tree_contents(*tree),
{
    tree.root_node()
}

/// `Node::kind`: the grammar's name for the node's kind.
#[verifier::external_body]
fn node_kind(node: &Node<'_>) -> (r: &'static str)
    ensures
        r@ == node_contents(*node).kind,
{
    node.kind()
}

/// `Node::is_named`: whether the node is named in the grammar.
#[verifier::external_body]
fn node_is_named(node: &Node<'_>) -> (r: bool)
    ensures
        r == node_contents(*node).named,
{
    node.is_named()
}

/// `Node::start_position`: the row of the node's first character.
#[verifier::external_body]
fn node_row(node: &Node<'_>) -> (r: usize)
    ensures
        r == node_contents(*node).row,
{
    node.start_position().row
}

/// `Node::byte_range`: the bytes of the source that the node covers.
#[verifier::external_body]
fn node_range(node: &Node<'_>) -> (r: (usize, usize))
    ensures
        r.0 == node_contents(*node).start,
        r.1 == node_contents(*node).end,
{
    let range = node.byte_range();
    (range.start, range.end)
}

/// `Node::utf8_text`: the text of the bytes that the node covers, and the empty
/// text where those bytes are not UTF-8. It panics where the range leaves the source.
#[verifier::external_body]
fn node_text<'s>(node: &Node<'_>, source: &'s str) -> (r: &'s str)
    requires
        node_contents(*node).start <= node_contents(*node).end,
        node_contents(*node).end <= vstd::utf8::encode_utf8(source@).len(),
    ensures
        r@ == source_text(source@, node_contents(*node).start as int, node_contents(*node).end as int),
{
    node.utf8_text(source.as_bytes()).unwrap_or("")
}

/// `Node::id`: a number that no other node of the tree has. It says nothing of the text:
/// another parse of the same text gives other numbers.
#[verifier::external_body]
fn node_id(node: &Node<'_>) -> (r: usize)
    ensures
        r == node_ident(*node),
{
    node.id()
}

/// `Node::children`: the children in order. As nodes of one tree they have different
/// numbers.
#[verifier::external_body]
fn node_children<'t>(node: &Node<'t>) -> (r: Vec<Node<'t>>)
    ensures
        r@.len() == node_contents(*node).children.len(),
        forall|i: int| 0 <= i < r@.len() ==> node_contents(#[trigger] r@[i]) == node_contents(*node).children[i],
        r@.len() == child_idents(*node).len(),
        forall|i: int| 0 <= i < r@.len() ==> node_ident(#[trigger] r@[i]) == child_idents(*node)[i],
        forall|i: int, j: int|
            0 <= i < j < r@.len() ==> node_ident(#[trigger] r@[i]) != node_ident(#[trigger] r@[j]),
{
    node.children(&mut node.walk()).collect()
}

/// `Node::child_by_field_name`: the child that a field holds, where the node has a
/// field of that name.
#[verifier::external_body]
fn node_child_by_field<'t>(node: &Node<'t>, name: &str) -> (r: Option<Node<'t>>)
    ensures
        match r {
            Some(child) => ({
                let contents = node_contents(*node);
                let i = contents.fields[name@];
                contents.fields.contains_key(name@) && 0 <= i < contents.children.len() && node_contents(child)
                    == contents.children[i] && node_ident(child) == child_idents(*node)[i]
            }),
            None => !node_contents(*node).fields.contains_key(name@),
        },
{
    node.child_by_field_name(name)
}

/// The text of the bytes `start..end` of `source`; empty where they are not
/// whole characters of it.
pub open spec fn source_text(source: Seq<char>, start: int, end: int) -> Seq<char> {
    let bytes = vstd::utf8::encode_utf8(source);
    if 0 <= start <= end <= bytes.len() && vstd::utf8::valid_utf8(bytes.subrange(start, end)) {
        vstd::utf8::decode_utf8(bytes.subrange(start, end))
    } else {
        Seq::empty()
    }
}

/// The fields that the library reads.
pub open spec fn field_names() -> Seq<Seq<char>> {
    seq![
        "argument"@,
        "arguments"@,
        "field"@,
        "function"@,
        "left"@,
        "name"@,
        "operator"@,
        "right"@,
        "value"@,
    ]
}

/// Those of the first `n` fields that a node has, each with its place.
pub open spec fn fields_of(fields: Map<Seq<char>, int>, n: nat) -> Seq<(Seq<char>, usize)>
    decreases n,
{
    if n == 0 || n > field_names().len() {
        Seq::empty()
    } else {
        let name = field_names()[n - 1];
        let before = fields_of(fields, (n - 1) as nat);
        if fields.contains_key(name) {
            before.push((name, fields[name] as usize))
        } else {
            before
        }
    }
}

/// A node as plain values, its text taken from `source`.
pub open spec fn syntax_of(node: NodeContents, source: Seq<char>) -> SyntaxView
    decreases node,
{
    SyntaxView {
        kind: node.kind,
        named: node.named,
        row: node.row,
        text: source_text(source, node.start as int, node.end as int),
        children: Seq::new(
            node.children.len(),
            |i: int|
                if 0 <= i < node.children.len() {
                    syntax_of(node.children[i], source)
                } else {
                    arbitrary()
                },
        ),
        fields: fields_of(node.fields, field_names().len()),
    }
}

/// The syntax tree of a C source text, as plain values.
pub open spec fn c_syntax(source: Seq<char>) -> Option<SyntaxView> {
    match c_tree(source) {
        Some(root) => Some(syntax_of(root, source)),
        None => None,
    }
}

/// The place of the node `child` among the children of a node.
fn place_of(nodes: &Vec<Node<'_>>, child: &Node<'_>) -> (r: usize)
    requires
        exists|i: int| 0 <= i < nodes@.len() && node_ident(#[trigger] nodes@[i]) == node_ident(*child),
    ensures
        r < nodes@.len(),
        node_ident(nodes@[r as int]) == node_ident(*child),
{
    let id: usize = node_id(child);
    let mut i: usize = 0;
    while node_id(&nodes[i]) != id
        invariant
            id == node_ident(*child),
            i < nodes@.len(),
            exists|k: int| i <= k < nodes@.len() && node_ident(#[trigger] nodes@[k]) == node_ident(*child),
        decreases nodes.len() - i,
    {
        i += 1;
    }
    i
}

fn read_fields(node: &Node<'_>, nodes: &Vec<Node<'_>>) -> (r: Vec<(String, usize)>)
    requires
        nodes@.len() == node_contents(*node).children.len(),
        forall|i: int| 0 <= i < nodes@.len() ==> node_ident(#[trigger] nodes@[i]) == child_idents(*node)[i],
        forall|i: int, j: int|
            0 <= i < j < nodes@.len() ==> node_ident(#[trigger] nodes@[i]) != node_ident(#[trigger] nodes@[j]),
    ensures
        text::views(r@) == fields_of(node_contents(*node).fields, field_names().len()),
{
    let names: [&str; 9] = [
        "argument",
        "arguments",
        "field",
        "function",
        "left",
        "name",
        "operator",
        "right",
        "value",
    ];
    let mut out: Vec<(String, usize)> = Vec::new();
    let mut n: usize = 0;
    while n < 9
        invariant
            n <= 9,
            forall|j: int| 0 <= j < 9 ==> #[trigger] names@[j]@ == field_names()[j],
            nodes@.len() == node_contents(*node).children.len(),
            forall|i: int| 0 <= i < nodes@.len() ==> node_ident(#[trigger] nodes@[i]) == child_idents(*node)[i],
            forall|i: int, j: int|
                0 <= i < j < nodes@.len() ==> node_ident(#[trigger] nodes@[i]) != node_ident(#[trigger] nodes@[j]),
            text::views(out@) == fields_of(node_contents(*node).fields, n as nat),
        decreases 9 - n,
    {
        let name = names[n];
        assert(name@ == field_names()[n as int]);
        if let Some(child) = node_child_by_field(node, name) {
            let ghost i = node_contents(*node).fields[name@];
            assert(node_ident(nodes@[i]) == node_ident(child));
            let k: usize = place_of(nodes, &child);
            assert(k == i);
            out.push((name.to_owned(), k));
        }
        n += 1;
    }
    out
}

fn read_node(node: &Node<'_>, source: &str) -> (r: SyntaxNode)
    ensures
        r@ == syntax_of(node_contents(*node), source@),
    decreases node_contents(*node),
{
    broadcast use crate::syntax::lemma_node_children;
    let ghost contents = node_contents(*node);
    let ghost all = syntax_of(contents, source@).children;
    let (start, end) = node_range(node);
    let text = if start <= end && end <= text::byte_len_of(source) {
        node_text(node, source).to_owned()
    } else {
        String::new()
    };
    let nodes = node_children(node);
    let mut children: Vec<SyntaxNode> = Vec::new();
    let mut i: usize = 0;
    while i < nodes.len()
        invariant
            i <= nodes@.len(),
            contents == node_contents(*node),
            all == syntax_of(contents, source@).children,
            nodes@.len() == contents.children.len(),
            forall|j: int| 0 <= j < nodes@.len() ==> node_contents(#[trigger] nodes@[j]) == contents.children[j],
            text::views(children@) =~= all.take(i as int),
        decreases nodes.len() - i,
    {
        let child = read_node(&nodes[i], source);
        assert(child@ == all[i as int]);
        children.push(child);
        i += 1;
    }
    assert(all.take(i as int) =~= all);
    let named: bool = node_is_named(node);
    let row: usize = node_row(node);
    let kind = node_kind(node).to_owned();
    let fields = read_fields(node, &nodes);
    SyntaxNode { kind, named, row, text, children, fields }
}

/// Parses C source into a syntax tree of plain values.
pub fn parse_c(source: &str) -> (r: Option<SyntaxNode>)
    ensures
        match r {
            Some(root) => c_syntax(source@) == Some(root@),
            None => c_syntax(source@) is None,
        },
{
    match parse_source(source) {
        Some(tree) => {
            let root = root_node(&tree);
            Some(read_node(&root, source))
        },
        None => None,
    }
}

} // verus!
