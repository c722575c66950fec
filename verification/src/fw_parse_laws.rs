//! What holds of every extraction.

use vstd::prelude::*;

use crate::fw_parse;
use crate::fw_parse::{HalCallView, RegisterAccessView};
use crate::syntax::SyntaxView;

verus! {

/// An expression folds to a constant only if all its operands do: an identifier that no
/// macro defines, or anything that is not constant, makes the whole unfoldable.
pub proof fn folding_needs_all_operands(node: SyntaxView, macros: Map<Seq<char>, u64>)
    requires
        fw_parse::folded(node, macros) is Some,
    ensures
        node.kind == "identifier"@ ==> macros.contains_key(node.text),
        node.kind == "parenthesized_expression"@ ==> (node.first_operand() matches Some(n) && fw_parse::folded(n, macros) is Some),
        node.kind == "unary_expression"@ ==> (node.field("argument"@) matches Some(n) && fw_parse::folded(n, macros) is Some),
        node.kind == "binary_expression"@ ==> (node.field("left"@) matches Some(l) && fw_parse::folded(l, macros) is Some) && (
        node.field("right"@) matches Some(r) && fw_parse::folded(r, macros) is Some),
        node.kind == "number_literal"@ || node.kind == "identifier"@ || node.kind == "parenthesized_expression"@
            || node.kind == "unary_expression"@ || node.kind == "binary_expression"@,
{
    reveal_strlit("number_literal");
    reveal_strlit("identifier");
    reveal_strlit("parenthesized_expression");
    reveal_strlit("unary_expression");
    reveal_strlit("binary_expression");
    assert("number_literal"@.len() == 14 && "identifier"@.len() == 10 && "parenthesized_expression"@.len() == 24
        && "unary_expression"@.len() == 16 && "binary_expression"@.len() == 17);
}

proof fn lemma_accesses_before_place(
    node: SyntaxView,
    file: Seq<char>,
    macros: Map<Seq<char>, u64>,
    n: nat,
    i: int,
)
    requires
        n <= node.children.len(),
        0 <= i < fw_parse::accesses_before(node, file, macros, n).len(),
    ensures
        fw_parse::accesses_before(node, file, macros, n)[i].file == file,
        fw_parse::accesses_before(node, file, macros, n)[i].line >= 1,
    decreases node, n,
{
    let before = fw_parse::accesses_before(node, file, macros, (n - 1) as nat);
    if i < before.len() {
        lemma_accesses_before_place(node, file, macros, (n - 1) as nat, i);
    } else {
        accesses_stand_in_their_file(node.children[n - 1], file, macros, i - before.len());
    }
}

/// Every access stands in the file that it was extracted from, at a line from one on.
pub proof fn accesses_stand_in_their_file(
    node: SyntaxView,
    file: Seq<char>,
    macros: Map<Seq<char>, u64>,
    i: int,
)
    requires
        0 <= i < fw_parse::accesses_in(node, file, macros).len(),
    ensures
        fw_parse::accesses_in(node, file, macros)[i].file == file,
        fw_parse::accesses_in(node, file, macros)[i].line >= 1,
    decreases node, node.children.len() + 1,
{
    let own = if node.kind == "assignment_expression"@ {
        fw_parse::listed(fw_parse::assignment_access(node, file, macros))
    } else {
        Seq::empty()
    };
    if i >= own.len() {
        lemma_accesses_before_place(node, file, macros, node.children.len(), i - own.len());
    }
}

proof fn lemma_calls_before_modelled(
    node: SyntaxView,
    file: Seq<char>,
    macros: Map<Seq<char>, u64>,
    n: nat,
    i: int,
)
    requires
        n <= node.children.len(),
        0 <= i < fw_parse::hal_calls_before(node, file, macros, n).len(),
    ensures
        ({
            let call = fw_parse::hal_calls_before(node, file, macros, n)[i];
            fw_parse::is_hal_function(call.function) && call.file == file && call.line >= 1 && call.args.len()
                == call.raw_args.len()
        }),
    decreases node, n,
{
    let before = fw_parse::hal_calls_before(node, file, macros, (n - 1) as nat);
    if i < before.len() {
        lemma_calls_before_modelled(node, file, macros, (n - 1) as nat, i);
    } else {
        calls_are_of_modelled_functions(node.children[n - 1], file, macros, i - before.len());
    }
}

/// Every extracted call is one of a modelled function, stands in the file that it was
/// extracted from, and has a source text for each argument.
pub proof fn calls_are_of_modelled_functions(
    node: SyntaxView,
    file: Seq<char>,
    macros: Map<Seq<char>, u64>,
    i: int,
)
    requires
        0 <= i < fw_parse::hal_calls_in(node, file, macros).len(),
    ensures
        ({
            let call = fw_parse::hal_calls_in(node, file, macros)[i];
            fw_parse::is_hal_function(call.function) && call.file == file && call.line >= 1 && call.args.len()
                == call.raw_args.len()
        }),
    decreases node, node.children.len() + 1,
{
    let own = if node.kind == "call_expression"@ {
        fw_parse::listed(fw_parse::hal_call_at(node, file, macros))
    } else {
        Seq::empty()
    };
    if i >= own.len() {
        lemma_calls_before_modelled(node, file, macros, node.children.len(), i - own.len());
    }
}

/// Whether `d` is a node of the tree `node`.
pub open spec fn within(node: SyntaxView, d: SyntaxView) -> bool
    decreases node, node.children.len() + 1,
{
    d == node || within_first(node, d, node.children.len())
}

/// Whether `d` is a node of one of the first `n` children of `node`.
pub open spec fn within_first(node: SyntaxView, d: SyntaxView, n: nat) -> bool
    decreases node, n,
{
    if n == 0 || n > node.children.len() {
        false
    } else {
        within_first(node, d, (n - 1) as nat) || within(node.children[n - 1], d)
    }
}

/// A node of the first children is a node of one of them.
pub proof fn lemma_within_first(node: SyntaxView, d: SyntaxView, n: nat)
    requires
        n <= node.children.len(),
    ensures
        within_first(node, d, n) <==> exists|k: int| 0 <= k < n && #[trigger] within(node.children[k], d),
    decreases n,
{
    if n > 0 {
        lemma_within_first(node, d, (n - 1) as nat);
        assert(within_first(node, d, n) == (within_first(node, d, (n - 1) as nat) || within(
            node.children[n - 1],
            d,
        )));
        if within_first(node, d, (n - 1) as nat) {
            let k = choose|k: int| 0 <= k < n - 1 && #[trigger] within(node.children[k], d);
            assert(within(node.children[k], d));
        }
    }
}

/// Whether the access `a` is made by an assignment somewhere in the tree.
pub open spec fn made_within(
    node: SyntaxView,
    file: Seq<char>,
    macros: Map<Seq<char>, u64>,
    a: RegisterAccessView,
) -> bool {
    exists|d: SyntaxView| #[trigger]
        within(node, d) && d.kind == "assignment_expression"@ && fw_parse::assignment_access(d, file, macros) == Some(a)
}

proof fn lemma_accesses_before_contains(
    node: SyntaxView,
    file: Seq<char>,
    macros: Map<Seq<char>, u64>,
    n: nat,
    a: RegisterAccessView,
)
    requires
        n <= node.children.len(),
    ensures
        fw_parse::accesses_before(node, file, macros, n).contains(a) <==> exists|k: int|
            0 <= k < n && #[trigger] fw_parse::accesses_in(node.children[k], file, macros).contains(a),
    decreases n,
{
    if n > 0 {
        lemma_accesses_before_contains(node, file, macros, (n - 1) as nat, a);
        let before = fw_parse::accesses_before(node, file, macros, (n - 1) as nat);
        let last = fw_parse::accesses_in(node.children[n - 1], file, macros);
        lemma_concat_contains(before, last, a);
        if before.contains(a) {
            let k = choose|k: int| 0 <= k < n - 1 && #[trigger] fw_parse::accesses_in(node.children[k], file, macros).contains(a);
            assert(fw_parse::accesses_in(node.children[k], file, macros).contains(a));
        }
    }
}

/// What is in two sequences is in one of them.
pub proof fn lemma_concat_contains<A>(s: Seq<A>, t: Seq<A>, a: A)
    ensures
        (s + t).contains(a) <==> s.contains(a) || t.contains(a),
{
    if s.contains(a) {
        assert((s + t)[s.index_of(a)] == a);
    }
    if t.contains(a) {
        assert((s + t)[s.len() + t.index_of(a)] == a);
    }
}

/// The accesses of a tree are those that its assignments make, all of them and no other.
pub proof fn extraction_is_exact(
    node: SyntaxView,
    file: Seq<char>,
    macros: Map<Seq<char>, u64>,
    a: RegisterAccessView,
)
    ensures
        fw_parse::accesses_in(node, file, macros).contains(a) <==> made_within(node, file, macros, a),
    decreases node,
{
    let own = if node.kind == "assignment_expression"@ {
        fw_parse::listed(fw_parse::assignment_access(node, file, macros))
    } else {
        Seq::empty()
    };
    let below = fw_parse::accesses_before(node, file, macros, node.children.len());
    lemma_concat_contains(own, below, a);
    lemma_accesses_before_contains(node, file, macros, node.children.len(), a);
    assert forall|k: int| 0 <= k < node.children.len() implies #[trigger] fw_parse::accesses_in(
        node.children[k],
        file,
        macros,
    ).contains(a) == made_within(node.children[k], file, macros, a) by {
        extraction_is_exact(node.children[k], file, macros, a);
    }
    if own.contains(a) {
        assert(own[0] == a);
        assert(within(node, node));
    }
    if below.contains(a) {
        let k = choose|k: int|
            0 <= k < node.children.len() && #[trigger] fw_parse::accesses_in(node.children[k], file, macros).contains(a);
        assert(made_within(node.children[k], file, macros, a));
        let d = choose|d: SyntaxView| #[trigger]
            within(node.children[k], d) && d.kind == "assignment_expression"@ && fw_parse::assignment_access(d, file, macros)
                == Some(a);
        lemma_within_first(node, d, node.children.len());
        assert(within(node, d));
    }
    if made_within(node, file, macros, a) {
        let d = choose|d: SyntaxView| #[trigger]
            within(node, d) && d.kind == "assignment_expression"@ && fw_parse::assignment_access(d, file, macros) == Some(a);
        if d == node {
            assert(own[0] == a);
        } else {
            lemma_within_first(node, d, node.children.len());
            let k = choose|k: int| 0 <= k < node.children.len() && #[trigger] within(node.children[k], d);
            assert(made_within(node.children[k], file, macros, a));
            assert(fw_parse::accesses_in(node.children[k], file, macros).contains(a));
        }
    }
}

/// An assignment through a pointer or an arrow is never dropped: where the target is not
/// known, the access says so.
pub proof fn recognised_shapes_are_never_dropped(left: SyntaxView, macros: Map<Seq<char>, u64>)
    ensures
        left.kind == "pointer_expression"@ && left.field("argument"@) is Some && (left.field("operator"@) matches Some(
            op,
        ) && op.text == "*"@) ==> fw_parse::lhs_target(left, macros) is Some,
        left.kind == "field_expression"@ && left.field("argument"@) is Some && left.field("field"@) is Some && (
        left.field("operator"@) matches Some(op) && op.text == "->"@) ==> fw_parse::lhs_target(left, macros) is Some,
        fw_parse::lhs_target(left, macros) is Some ==> left.kind == "pointer_expression"@ || left.kind == "field_expression"@,
{
    reveal_strlit("pointer_expression");
    reveal_strlit("field_expression");
    assert("pointer_expression"@.len() == 18 && "field_expression"@.len() == 16);
}

/// Whether the call `c` is made by a call expression somewhere in the tree.
pub open spec fn called_within(
    node: SyntaxView,
    file: Seq<char>,
    macros: Map<Seq<char>, u64>,
    c: HalCallView,
) -> bool {
    exists|d: SyntaxView| #[trigger]
        within(node, d) && d.kind == "call_expression"@ && fw_parse::hal_call_at(d, file, macros) == Some(c)
}

proof fn lemma_calls_before_contains(
    node: SyntaxView,
    file: Seq<char>,
    macros: Map<Seq<char>, u64>,
    n: nat,
    c: HalCallView,
)
    requires
        n <= node.children.len(),
    ensures
        fw_parse::hal_calls_before(node, file, macros, n).contains(c) <==> exists|k: int|
            0 <= k < n && #[trigger] fw_parse::hal_calls_in(node.children[k], file, macros).contains(c),
    decreases n,
{
    if n > 0 {
        lemma_calls_before_contains(node, file, macros, (n - 1) as nat, c);
        let before = fw_parse::hal_calls_before(node, file, macros, (n - 1) as nat);
        let last = fw_parse::hal_calls_in(node.children[n - 1], file, macros);
        lemma_concat_contains(before, last, c);
        if before.contains(c) {
            let k = choose|k: int|
                0 <= k < n - 1 && #[trigger] fw_parse::hal_calls_in(node.children[k], file, macros).contains(c);
            assert(fw_parse::hal_calls_in(node.children[k], file, macros).contains(c));
        }
    }
}

/// The extracted calls of a tree are those of modelled functions in it, all of them and
/// no other.
pub proof fn call_extraction_is_exact(
    node: SyntaxView,
    file: Seq<char>,
    macros: Map<Seq<char>, u64>,
    c: HalCallView,
)
    ensures
        fw_parse::hal_calls_in(node, file, macros).contains(c) <==> called_within(node, file, macros, c),
    decreases node,
{
    let own = if node.kind == "call_expression"@ {
        fw_parse::listed(fw_parse::hal_call_at(node, file, macros))
    } else {
        Seq::empty()
    };
    let below = fw_parse::hal_calls_before(node, file, macros, node.children.len());
    lemma_concat_contains(own, below, c);
    lemma_calls_before_contains(node, file, macros, node.children.len(), c);
    assert forall|k: int| 0 <= k < node.children.len() implies #[trigger] fw_parse::hal_calls_in(
        node.children[k],
        file,
        macros,
    ).contains(c) == called_within(node.children[k], file, macros, c) by {
        call_extraction_is_exact(node.children[k], file, macros, c);
    }
    if own.contains(c) {
        assert(own[0] == c);
        assert(within(node, node));
    }
    if below.contains(c) {
        let k = choose|k: int|
            0 <= k < node.children.len() && #[trigger] fw_parse::hal_calls_in(node.children[k], file, macros).contains(c);
        assert(called_within(node.children[k], file, macros, c));
        let d = choose|d: SyntaxView| #[trigger]
            within(node.children[k], d) && d.kind == "call_expression"@ && fw_parse::hal_call_at(d, file, macros) == Some(c);
        lemma_within_first(node, d, node.children.len());
        assert(within(node, d));
    }
    if called_within(node, file, macros, c) {
        let d = choose|d: SyntaxView| #[trigger]
            within(node, d) && d.kind == "call_expression"@ && fw_parse::hal_call_at(d, file, macros) == Some(c);
        if d == node {
            assert(own[0] == c);
        } else {
            lemma_within_first(node, d, node.children.len());
            let k = choose|k: int| 0 <= k < node.children.len() && #[trigger] within(node.children[k], d);
            assert(called_within(node.children[k], file, macros, c));
            assert(fw_parse::hal_calls_in(node.children[k], file, macros).contains(c));
        }
    }
}

} // verus!
