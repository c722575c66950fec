//! Which macros a file and a project define, and what they stand for.

use vstd::prelude::*;

use crate::c_source;
use crate::fw_parse;
use crate::fw_parse::SourceFileView;
use crate::fw_parse_laws;
use crate::literal;
use crate::macros;
use crate::syntax::SyntaxView;
use crate::text;

verus! {

// ── Definitions ──────────────────────────────────────────────────────────────

/// Whether `d` is a `#define` that gives `name` this value: the integer literal that stands
/// there, or none.
pub open spec fn defines(d: SyntaxView, name: Seq<char>, value: Option<u64>) -> bool {
    &&& d.kind == "preproc_def"@
    &&& d.field("name"@) matches Some(n) && n.text == name
    &&& value == match d.field("value"@) {
        Some(v) => literal::number_literal(text::trim(v.text)),
        None => None,
    }
}

/// Whether `d` is a node of the tree `node` that stands inside no `#define`.
pub open spec fn stands_free(node: SyntaxView, d: SyntaxView) -> bool
    decreases node, node.children.len() + 1,
{
    d == node || (node.kind != "preproc_def"@ && stands_free_first(node, d, node.children.len()))
}

/// Whether `d` is such a node of one of the first `n` children of `node`.
pub open spec fn stands_free_first(node: SyntaxView, d: SyntaxView, n: nat) -> bool
    decreases node, n,
{
    if n == 0 || n > node.children.len() {
        false
    } else {
        stands_free_first(node, d, (n - 1) as nat) || stands_free(node.children[n - 1], d)
    }
}

proof fn lemma_free_first(node: SyntaxView, d: SyntaxView, n: nat)
    requires
        n <= node.children.len(),
    ensures
        stands_free_first(node, d, n) <==> exists|k: int| 0 <= k < n && #[trigger] stands_free(node.children[k], d),
    decreases n,
{
    if n > 0 {
        lemma_free_first(node, d, (n - 1) as nat);
        assert(stands_free_first(node, d, n) == (stands_free_first(node, d, (n - 1) as nat) || stands_free(
            node.children[n - 1],
            d,
        )));
        if stands_free_first(node, d, (n - 1) as nat) {
            let k = choose|k: int| 0 <= k < n - 1 && #[trigger] stands_free(node.children[k], d);
            assert(stands_free(node.children[k], d));
        }
    }
}

proof fn lemma_before(node: SyntaxView, n: nat, x: (Seq<char>, Option<u64>))
    requires
        n <= node.children.len(),
    ensures
        macros::definitions_before(node, n).contains(x) <==> exists|k: int|
            0 <= k < n && #[trigger] macros::definitions_in(node.children[k]).contains(x),
    decreases n,
{
    if n > 0 {
        lemma_before(node, (n - 1) as nat, x);
        let before = macros::definitions_before(node, (n - 1) as nat);
        let last = macros::definitions_in(node.children[n - 1]);
        fw_parse_laws::lemma_concat_contains(before, last, x);
        if before.contains(x) {
            let k = choose|k: int| 0 <= k < n - 1 && #[trigger] macros::definitions_in(node.children[k]).contains(x);
            assert(macros::definitions_in(node.children[k]).contains(x));
        }
    }
}

/// The definitions of a tree are those of the `#define`s anywhere in it, whatever
/// conditions or other nodes stand around them, all of them and no others.
pub proof fn definitions_are_those_of_the_tree(root: SyntaxView, name: Seq<char>, value: Option<u64>)
    ensures
        macros::definitions_in(root).contains((name, value)) <==> exists|d: SyntaxView| #[trigger]
            stands_free(root, d) && defines(d, name, value),
    decreases root,
{
    let x = (name, value);
    let all = macros::definitions_in(root);
    if root.kind == "preproc_def"@ {
        if all.contains(x) {
            let i = all.index_of(x);
            assert(all[i] == x);
            assert(defines(root, name, value));
            assert(stands_free(root, root));
        }
        if exists|d: SyntaxView| #[trigger] stands_free(root, d) && defines(d, name, value) {
            let d = choose|d: SyntaxView| #[trigger] stands_free(root, d) && defines(d, name, value);
            assert(d == root);
            assert(all[0] == x);
        }
    } else {
        lemma_before(root, root.children.len(), x);
        assert forall|k: int| 0 <= k < root.children.len() implies #[trigger] macros::definitions_in(
            root.children[k],
        ).contains(x) == (exists|d: SyntaxView| #[trigger] stands_free(root.children[k], d) && defines(d, name, value)) by {
            definitions_are_those_of_the_tree(root.children[k], name, value);
        }
        if all.contains(x) {
            let k = choose|k: int|
                0 <= k < root.children.len() && #[trigger] macros::definitions_in(root.children[k]).contains(x);
            let d = choose|d: SyntaxView| #[trigger] stands_free(root.children[k], d) && defines(d, name, value);
            lemma_free_first(root, d, root.children.len());
            assert(stands_free(root, d));
        }
        if exists|d: SyntaxView| #[trigger] stands_free(root, d) && defines(d, name, value) {
            let d = choose|d: SyntaxView| #[trigger] stands_free(root, d) && defines(d, name, value);
            assert(d != root);
            lemma_free_first(root, d, root.children.len());
            let k = choose|k: int| 0 <= k < root.children.len() && #[trigger] stands_free(root.children[k], d);
            assert(macros::definitions_in(root.children[k]).contains(x));
        }
    }
}

/// Whether no `#define` of the tree stands inside another one.
pub open spec fn no_nested_definitions(root: SyntaxView) -> bool {
    forall|d: SyntaxView, e: SyntaxView|
        #![trigger fw_parse_laws::within(root, d), fw_parse_laws::within(d, e)]
        fw_parse_laws::within(root, d) && d.kind == "preproc_def"@ && fw_parse_laws::within(d, e) && e.kind
            == "preproc_def"@ ==> e == d
}

proof fn lemma_within_child(node: SyntaxView, k: int, d: SyntaxView)
    requires
        0 <= k < node.children.len(),
        fw_parse_laws::within(node.children[k], d),
    ensures
        fw_parse_laws::within(node, d),
{
    fw_parse_laws::lemma_within_first(node, d, node.children.len());
}

proof fn lemma_free(root: SyntaxView, d: SyntaxView)
    requires
        no_nested_definitions(root),
        d.kind == "preproc_def"@,
    ensures
        stands_free(root, d) <==> fw_parse_laws::within(root, d),
    decreases root,
{
    fw_parse_laws::lemma_within_first(root, d, root.children.len());
    lemma_free_first(root, d, root.children.len());
    assert(fw_parse_laws::within(root, root));
    if d != root {
        assert forall|k: int| 0 <= k < root.children.len() implies #[trigger] stands_free(root.children[k], d)
            == fw_parse_laws::within(root.children[k], d) by {
            let child = root.children[k];
            assert forall|a: SyntaxView, b: SyntaxView|
                #![trigger fw_parse_laws::within(child, a), fw_parse_laws::within(a, b)]
                fw_parse_laws::within(child, a) && a.kind == "preproc_def"@ && fw_parse_laws::within(a, b) && b.kind
                    == "preproc_def"@ implies b == a by {
                lemma_within_child(root, k, a);
            }
            lemma_free(child, d);
        }
        if fw_parse_laws::within(root, d) {
            let k = choose|k: int| 0 <= k < root.children.len() && #[trigger] fw_parse_laws::within(root.children[k], d);
            assert(stands_free(root.children[k], d));
            if root.kind == "preproc_def"@ {
                assert(fw_parse_laws::within(root, d));
                assert(d == root);
            }
        }
        if stands_free(root, d) {
            let k = choose|k: int| 0 <= k < root.children.len() && #[trigger] stands_free(root.children[k], d);
            lemma_within_child(root, k, d);
        }
    }
}

/// Where no `#define` stands inside another one, the definitions of a tree are those of all
/// the `#define`s within it.
pub proof fn definitions_are_all_within_the_tree(root: SyntaxView, name: Seq<char>, value: Option<u64>)
    requires
        no_nested_definitions(root),
    ensures
        macros::definitions_in(root).contains((name, value)) <==> exists|d: SyntaxView| #[trigger]
            fw_parse_laws::within(root, d) && defines(d, name, value),
{
    definitions_are_those_of_the_tree(root, name, value);
    if exists|d: SyntaxView| #[trigger] stands_free(root, d) && defines(d, name, value) {
        let d = choose|d: SyntaxView| #[trigger] stands_free(root, d) && defines(d, name, value);
        lemma_free(root, d);
        assert(fw_parse_laws::within(root, d));
    }
    if exists|d: SyntaxView| #[trigger] fw_parse_laws::within(root, d) && defines(d, name, value) {
        let d = choose|d: SyntaxView| #[trigger] fw_parse_laws::within(root, d) && defines(d, name, value);
        lemma_free(root, d);
        assert(stands_free(root, d));
    }
}

/// The definitions of a node are those of its children, in order.
pub proof fn definitions_follow_the_source(node: SyntaxView, n: nat)
    requires
        node.kind != "preproc_def"@,
        n < node.children.len(),
    ensures
        macros::definitions_in(SyntaxView { children: node.children.take(n as int + 1), ..node })
            == macros::definitions_in(SyntaxView { children: node.children.take(n as int), ..node })
            + macros::definitions_in(node.children[n as int]),
{
    let a = SyntaxView { children: node.children.take(n as int), ..node };
    let b = SyntaxView { children: node.children.take(n as int + 1), ..node };
    lemma_same_before(a, b, n);
    assert(b.children[n as int] == node.children[n as int]);
}

proof fn lemma_same_before(a: SyntaxView, b: SyntaxView, n: nat)
    requires
        n <= a.children.len(),
        n <= b.children.len(),
        forall|i: int| 0 <= i < n ==> a.children[i] == b.children[i],
    ensures
        macros::definitions_before(a, n) == macros::definitions_before(b, n),
    decreases n,
{
    if n > 0 {
        lemma_same_before(a, b, (n - 1) as nat);
    }
}

// ── Tables ───────────────────────────────────────────────────────────────────

/// A file gives a name a value exactly if it defines it, and that of the last definition.
pub proof fn the_last_definition_counts(definitions: Seq<(Seq<char>, Option<u64>)>, name: Seq<char>, i: int)
    ensures
        macros::macro_table(definitions).contains_key(name) <==> exists|k: int|
            0 <= k < definitions.len() && (#[trigger] definitions[k]).0 == name,
        0 <= i < definitions.len() && definitions[i].0 == name && (forall|j: int|
            i < j < definitions.len() ==> (#[trigger] definitions[j]).0 != name) ==> macros::macro_table(
            definitions,
        )[name] == definitions[i].1,
    decreases definitions.len(),
{
    if definitions.len() > 0 {
        let rest = definitions.drop_last();
        let last = definitions.last();
        let n = definitions.len() - 1;
        the_last_definition_counts(rest, name, i);
        assert(definitions[n] == last);
        if macros::macro_table(rest).contains_key(name) {
            let k = choose|k: int| 0 <= k < rest.len() && (#[trigger] rest[k]).0 == name;
            assert(definitions[k].0 == name);
        }
        if exists|k: int| 0 <= k < definitions.len() && (#[trigger] definitions[k]).0 == name {
            let k = choose|k: int| 0 <= k < definitions.len() && (#[trigger] definitions[k]).0 == name;
            if k < n {
                assert(rest[k].0 == name);
            }
        }
        if 0 <= i < n && definitions[i].0 == name && (forall|j: int|
            i < j < definitions.len() ==> (#[trigger] definitions[j]).0 != name) {
            assert(rest[i].0 == name);
            assert(definitions[n].0 != name);
            assert forall|j: int| i < j < rest.len() implies (#[trigger] rest[j]).0 != name by {
                assert(definitions[j].0 != name);
            }
        }
    }
}

/// In a file a name stands for what the file gives it, and for what the project gives it
/// only where the file has no definition of it.
pub proof fn names_stand_for_their_macros(
    own: Map<Seq<char>, Option<u64>>,
    project: Map<Seq<char>, u64>,
    name: Seq<char>,
    v: u64,
)
    ensures
        (macros::in_effect(own, project).contains_key(name) && macros::in_effect(own, project)[name] == v) <==> (
        own.contains_key(name) && own[name] == Some(v)) || (!own.contains_key(name) && project.contains_key(name)
            && project[name] == v),
{
}

/// A project gives a name a value exactly if some definition does, and every definition of
/// that name gives the same.
pub proof fn projects_give_values_without_dispute(
    definitions: Seq<(Seq<char>, Option<u64>)>,
    name: Seq<char>,
    v: u64,
)
    ensures
        (macros::agreed_table(definitions).contains_key(name) && macros::agreed_table(definitions)[name] == v) <==> {
            &&& exists|i: int| 0 <= i < definitions.len() && (#[trigger] definitions[i]).0 == name
            &&& forall|i: int|
                0 <= i < definitions.len() && (#[trigger] definitions[i]).0 == name ==> definitions[i].1 == Some(v)
        },
{
    let table = macros::agreed_table(definitions);
    macros::project_macros_are_agreed(definitions, name, v);
    if macros::agreed(definitions, name, v) {
        let i = definitions.index_of((name, Some(v)));
        assert(definitions[i].0 == name);
        assert forall|i: int| 0 <= i < definitions.len() && (#[trigger] definitions[i]).0 == name implies definitions[i].1
            == Some(v) by {
            assert(definitions[i] == (name, definitions[i].1));
            assert(definitions.contains((name, definitions[i].1)));
        }
    }
    if (exists|i: int| 0 <= i < definitions.len() && (#[trigger] definitions[i]).0 == name) && (forall|i: int|
        0 <= i < definitions.len() && (#[trigger] definitions[i]).0 == name ==> definitions[i].1 == Some(v)) {
        let i = choose|i: int| 0 <= i < definitions.len() && (#[trigger] definitions[i]).0 == name;
        assert(definitions[i] == (name, Some(v)));
        assert(definitions.contains((name, Some(v))));
        assert forall|w: Option<u64>| definitions.contains((name, w)) implies w == Some(v) by {
            let k = definitions.index_of((name, w));
            assert(definitions[k].0 == name);
        }
        assert(macros::agreed(definitions, name, v));
    }
}

/// In a project each definition of a file counts with the value that its name has at the
/// end of that file.
pub proof fn files_settle_their_definitions(definitions: Seq<(Seq<char>, Option<u64>)>, i: int, k: int)
    requires
        0 <= i < definitions.len(),
        0 <= k < definitions.len(),
        definitions[k].0 == definitions[i].0,
        forall|j: int| k < j < definitions.len() ==> (#[trigger] definitions[j]).0 != definitions[i].0,
    ensures
        macros::settled(definitions).len() == definitions.len(),
        macros::settled(definitions)[i] == (definitions[i].0, definitions[k].1),
{
    the_last_definition_counts(definitions, definitions[i].0, k);
}

/// The definitions of a project are those of its files, one after the other.
pub proof fn projects_gather_their_files(a: Seq<SourceFileView>, b: Seq<SourceFileView>)
    ensures
        fw_parse::project_definitions(a + b) == fw_parse::project_definitions(a) + fw_parse::project_definitions(b),
    decreases b.len(),
{
    if b.len() == 0 {
        assert(a + b =~= a);
        assert(fw_parse::project_definitions(a) + fw_parse::project_definitions(b) =~= fw_parse::project_definitions(a));
    } else {
        projects_gather_their_files(a, b.drop_last());
        assert((a + b).drop_last() =~= a + b.drop_last());
        assert((a + b).last() == b.last());
        assert(fw_parse::project_definitions(a + b) =~= fw_parse::project_definitions(a)
            + fw_parse::project_definitions(b));
    }
}

/// A file brings its settled definitions to a project.
pub proof fn a_file_brings_its_definitions(file: SourceFileView, root: SyntaxView)
    requires
        c_source::c_syntax(file.source) == Some(root),
    ensures
        fw_parse::project_definitions(seq![file]) == macros::settled(macros::definitions_in(root)),
{
    assert(seq![file].drop_last() =~= Seq::<SourceFileView>::empty());
    assert(fw_parse::project_definitions(Seq::<SourceFileView>::empty()) =~= Seq::<(Seq<char>, Option<u64>)>::empty());
    assert(fw_parse::project_definitions(seq![file]) =~= macros::settled(macros::definitions_in(root)));
}

} // verus!
