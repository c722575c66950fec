//! Macros that stand for integers: the definitions of a file, and what they come to
//! in a project of several files.

use vstd::prelude::*;

use vstd::hash_map::StringHashMap;

use crate::literal;
use crate::syntax::{SyntaxNode, SyntaxView};
use crate::text;

verus! {

broadcast use crate::text::group_views;

/// Macro names with the integers that they stand for.
pub type MacroTable = StringHashMap<u64>;

/// The names that a file defines, with the integers that they stand for. `None` means
/// that a name is defined, but not by an integer literal.
pub type FileMacros = StringHashMap<Option<u64>>;

/// A macro definition. The value is known where it is an integer literal.
#[derive(Debug, PartialEq, Eq)]
pub struct Definition {
    pub name: String,
    pub value: Option<u64>,
}

impl View for Definition {
    type V = (Seq<char>, Option<u64>);

    open spec fn view(&self) -> (Seq<char>, Option<u64>) {
        (self.name@, self.value)
    }
}

/// The macros in effect in a file: its own, and those of the project for the names
/// that it does not define. A name that it defines by something else than an integer
/// literal stands for no integer, whatever the project says.
pub open spec fn in_effect(
    local: Map<Seq<char>, Option<u64>>,
    project: Map<Seq<char>, u64>,
) -> Map<Seq<char>, u64> {
    Map::new(
        |name: Seq<char>|
            if local.contains_key(name) {
                local[name] is Some
            } else {
                project.contains_key(name)
            },
        |name: Seq<char>|
            if local.contains_key(name) {
                local[name]->0
            } else {
                project[name]
            },
    )
}

/// The macros in effect in a file.
pub struct MacroScope<'t> {
    pub local: &'t FileMacros,
    pub project: &'t MacroTable,
}

impl<'t> View for MacroScope<'t> {
    type V = Map<Seq<char>, u64>;

    open spec fn view(&self) -> Map<Seq<char>, u64> {
        in_effect(self.local@, self.project@)
    }
}

/// What a table gives for a name.
pub open spec fn value_of(macros: Map<Seq<char>, u64>, name: Seq<char>) -> Option<u64> {
    if macros.contains_key(name) {
        Some(macros[name])
    } else {
        None
    }
}

impl<'t> MacroScope<'t> {
    /// The value of the macro `name`, where one is in effect.
    pub fn get(&self, name: &str) -> (r: Option<u64>)
        ensures
            r == value_of(self@, name@),
    {
        match self.local.get(name) {
            Some(v) => *v,
            None => match self.project.get(name) {
                Some(v) => Some(*v),
                None => None,
            },
        }
    }
}

// ── Macro definitions ────────────────────────────────────────────────────────

/// The macro that a `#define` defines. A value that is not an integer literal, such as
/// `(1u << 25)`, is unknown rather than guessed.
pub open spec fn definition_at(node: SyntaxView) -> Option<(Seq<char>, Option<u64>)> {
    match node.field("name"@) {
        Some(name) => Some(
            (
                name.text,
                match node.field("value"@) {
                    Some(value) => literal::number_literal(text::trim(value.text)),
                    None => None,
                },
            ),
        ),
        None => None,
    }
}

/// The macro definitions of a tree, in order.
pub open spec fn definitions_in(node: SyntaxView) -> Seq<(Seq<char>, Option<u64>)>
    decreases node, node.children.len() + 1,
{
    if node.kind == "preproc_def"@ {
        match definition_at(node) {
            Some(d) => seq![d],
            None => Seq::empty(),
        }
    } else {
        definitions_before(node, node.children.len())
    }
}

/// The macro definitions of the first `n` children of a node.
pub open spec fn definitions_before(node: SyntaxView, n: nat) -> Seq<(Seq<char>, Option<u64>)>
    decreases node, n,
{
    if n == 0 || n > node.children.len() {
        Seq::empty()
    } else {
        definitions_before(node, (n - 1) as nat) + definitions_in(node.children[n - 1])
    }
}

/// The macros in effect after a sequence of definitions: the last one of a name counts.
pub open spec fn macro_table(definitions: Seq<(Seq<char>, Option<u64>)>) -> Map<Seq<char>, Option<u64>>
    decreases definitions.len(),
{
    if definitions.len() == 0 {
        Map::empty()
    } else {
        macro_table(definitions.drop_last()).insert(definitions.last().0, definitions.last().1)
    }
}

/// The definitions of a file, each with the value that its name has in the end.
pub open spec fn settled(definitions: Seq<(Seq<char>, Option<u64>)>) -> Seq<(Seq<char>, Option<u64>)> {
    definitions.map_values(|d: (Seq<char>, Option<u64>)| (d.0, macro_table(definitions)[d.0]))
}

/// Whether the definitions of `name` give it the value `v`, and nothing else.
pub open spec fn agreed(definitions: Seq<(Seq<char>, Option<u64>)>, name: Seq<char>, v: u64) -> bool {
    &&& definitions.contains((name, Some(v)))
    &&& forall|w: Option<u64>| definitions.contains((name, w)) ==> w == Some(v)
}

/// Whether the definitions leave the value of `name` open: they give it two values, or
/// one of them is not an integer literal.
pub open spec fn disputed(definitions: Seq<(Seq<char>, Option<u64>)>, name: Seq<char>) -> bool {
    ||| definitions.contains((name, None::<u64>))
    ||| exists|v: Option<u64>, w: Option<u64>|
        v != w && #[trigger] definitions.contains((name, v)) && #[trigger] definitions.contains((name, w))
}

/// The macros of a project: the names on whose value all the definitions agree. A
/// name with two values stands for neither of them outside the files that define it.
pub open spec fn agreed_table(definitions: Seq<(Seq<char>, Option<u64>)>) -> Map<Seq<char>, u64> {
    Map::new(
        |name: Seq<char>| exists|v: u64| agreed(definitions, name, v),
        |name: Seq<char>| choose|v: u64| agreed(definitions, name, v),
    )
}

/// Adds the macro definitions of a tree to `out`.
pub fn collect_macros(node: &SyntaxNode, out: &mut Vec<Definition>)
    ensures
        text::views(final(out)@) == text::views(old(out)@) + definitions_in(node@),
    decreases node,
{
    broadcast use crate::syntax::lemma_node_children;
    let ghost before = text::views(out@);
    if text::same_text(node.kind.as_str(), "preproc_def") {
        if let Some(name) = node.child_by_field_name("name") {
            let value = match node.child_by_field_name("value") {
                Some(value) => literal::parse_number_literal(text::trim_text(value.text.as_str()).as_str()),
                None => None,
            };
            out.push(Definition { name: name.text.clone(), value });
        }
        assert(text::views(out@) =~= before + definitions_in(node@));
        return;
    }
    let mut i: usize = 0;
    assert(before =~= before + definitions_before(node@, 0));
    while i < node.children.len()
        invariant
            i <= node.children@.len(),
            node@.children == text::views(node.children@),
            text::views(out@) == before + definitions_before(node@, i as nat),
        decreases node.children.len() - i,
    {
        let child = &node.children[i];
        assert(decreases_to!(node => node.children@));
        assert(node@.children[i as int] == child@);
        collect_macros(child, out);
        i += 1;
        assert(text::views(out@) =~= before + definitions_before(node@, i as nat));
    }
}

fn table_of(definitions: &[Definition]) -> (r: FileMacros)
    ensures
        r@ == macro_table(text::views(definitions@)),
{
    let ghost all = text::views(definitions@);
    let mut table: FileMacros = StringHashMap::new();
    let mut i: usize = 0;
    while i < definitions.len()
        invariant
            i <= definitions@.len(),
            all == text::views(definitions@),
            table@ == macro_table(all.take(i as int)),
        decreases definitions.len() - i,
    {
        table.insert(definitions[i].name.clone(), definitions[i].value);
        assert(all.take(i + 1).drop_last() =~= all.take(i as int));
        assert(all.take(i + 1).last() == definitions@[i as int]@);
        i += 1;
    }
    assert(all.take(all.len() as int) =~= all);
    table
}

/// Collects the macros that a translation unit defines.
pub fn build_macro_table(root: &SyntaxNode) -> (r: FileMacros)
    ensures
        r@ == macro_table(definitions_in(root@)),
{
    let mut definitions: Vec<Definition> = Vec::new();
    collect_macros(root, &mut definitions);
    assert(text::views(definitions@) =~= definitions_in(root@));
    table_of(&definitions)
}

/// Every definition is in the table.
proof fn lemma_defined(definitions: Seq<(Seq<char>, Option<u64>)>, i: int)
    requires
        0 <= i < definitions.len(),
    ensures
        macro_table(definitions).contains_key(definitions[i].0),
    decreases definitions.len(),
{
    if i < definitions.len() - 1 {
        lemma_defined(definitions.drop_last(), i);
    }
}

/// The definitions of a translation unit, each with the value that its name has in
/// the end.
pub fn settled_definitions(root: &SyntaxNode) -> (r: Vec<Definition>)
    ensures
        text::views(r@) == settled(definitions_in(root@)),
{
    let mut definitions: Vec<Definition> = Vec::new();
    collect_macros(root, &mut definitions);
    let ghost all = definitions_in(root@);
    assert(text::views(definitions@) =~= all);
    let table = table_of(&definitions);
    let mut out: Vec<Definition> = Vec::new();
    let mut i: usize = 0;
    while i < definitions.len()
        invariant
            i <= definitions@.len(),
            all == text::views(definitions@),
            table@ == macro_table(all),
            text::views(out@) =~= settled(all).take(i as int),
        decreases definitions.len() - i,
    {
        assert(all[i as int] == definitions@[i as int]@);
        proof {
            lemma_defined(all, i as int);
        }
        if let Some(v) = table.get(definitions[i].name.as_str()) {
            out.push(Definition { name: definitions[i].name.clone(), value: *v });
        }
        i += 1;
    }
    assert(text::views(out@) =~= settled(all));
    out
}

proof fn lemma_one_more(s: Seq<(Seq<char>, Option<u64>)>, n: Seq<char>, v: Option<u64>)
    ensures
        forall|name: Seq<char>, w: Option<u64>|
            #![trigger s.push((n, v)).contains((name, w))]
            #![trigger s.contains((name, w))]
            s.push((n, v)).contains((name, w)) <==> s.contains((name, w)) || (name == n && w == v),
{
    let t = s.push((n, v));
    assert forall|name: Seq<char>, w: Option<u64>|
        #![trigger t.contains((name, w))]
        #![trigger s.contains((name, w))]
        t.contains((name, w)) <==> s.contains((name, w)) || (name == n && w == v) by {
        if s.contains((name, w)) {
            let i = s.index_of((name, w));
            assert(t[i] == (name, w));
        }
        if name == n && w == v {
            assert(t[s.len() as int] == (name, w));
        }
    }
}

/// A name that is defined is agreed on or disputed, and not both.
proof fn lemma_agreed_or_disputed(s: Seq<(Seq<char>, Option<u64>)>, name: Seq<char>, v: Option<u64>)
    requires
        s.contains((name, v)),
    ensures
        disputed(s, name) || (v matches Some(x) && agreed(s, name, x)),
        forall|x: u64| agreed(s, name, x) ==> !disputed(s, name) && v == Some(x),
{
    if !disputed(s, name) {
        assert(v is Some);
        assert forall|w: Option<u64>| s.contains((name, w)) implies w == v by {}
    }
    assert forall|x: u64| agreed(s, name, x) implies !disputed(s, name) && v == Some(x) by {
        if s.contains((name, None::<u64>)) {
            assert(None::<u64> == Some(x));
        }
    }
}

/// Merges the definitions of a project into one table: the names on whose value all
/// of them agree.
pub fn merge_definitions(definitions: &[Definition]) -> (r: MacroTable)
    ensures
        r@ == agreed_table(text::views(definitions@)),
{
    let ghost all = text::views(definitions@);
    let mut table: MacroTable = StringHashMap::new();
    let mut rejected: StringHashMap<bool> = StringHashMap::new();
    let mut i: usize = 0;
    while i < definitions.len()
        invariant
            i <= definitions@.len(),
            all == text::views(definitions@),
            forall|name: Seq<char>, v: u64|
                #[trigger] agreed(all.take(i as int), name, v) <==> table@.contains_key(name) && table@[name] == v,
            forall|name: Seq<char>| rejected@.contains_key(name) <==> #[trigger] disputed(all.take(i as int), name),
        decreases definitions.len() - i,
    {
        let name = definitions[i].name.as_str();
        let value: Option<u64> = definitions[i].value;
        let ghost s = all.take(i as int);
        let ghost old_table = table@;
        let ghost old_rejected = rejected@;
        proof {
            assert(all.take(i + 1) =~= s.push((name@, value)));
            lemma_one_more(s, name@, value);
        }
        if !rejected.contains_key(name) {
            let known: Option<u64> = match table.get(name) {
                Some(w) => Some(*w),
                None => None,
            };
            match (known, value) {
                (None, Some(v)) => {
                    table.insert(name.to_owned(), v);
                },
                (Some(w), Some(v)) => {
                    if w != v {
                        table.remove(name);
                        rejected.insert(name.to_owned(), true);
                    }
                },
                (_, None) => {
                    table.remove(name);
                    rejected.insert(name.to_owned(), true);
                },
            }
        }
        proof {
            let t = all.take(i + 1);
            assert(t.contains((name@, value)));
            lemma_agreed_or_disputed(t, name@, value);
            assert forall|n: Seq<char>| rejected@.contains_key(n) <==> #[trigger] disputed(t, n) by {
                assert(disputed(s, n) <==> old_rejected.contains_key(n));
                if n == name@ {
                    lemma_step(s, t, n, value, old_table, old_rejected.contains_key(n));
                } else {
                    lemma_other_names(s, t, n);
                }
            }
            assert forall|n: Seq<char>, w: u64|
                #[trigger] agreed(t, n, w) <==> table@.contains_key(n) && table@[n] == w by {
                assert(agreed(s, n, w) <==> old_table.contains_key(n) && old_table[n] == w);
                if n == name@ {
                    lemma_step(s, t, n, value, old_table, old_rejected.contains_key(n));
                } else {
                    lemma_other_names(s, t, n);
                }
            }
        }
        i += 1;
    }
    proof {
        assert(all.take(i as int) =~= all);
        let want = agreed_table(all);
        assert forall|n: Seq<char>| table@.contains_key(n) <==> want.contains_key(n) by {
            if table@.contains_key(n) {
                assert(agreed(all, n, table@[n]));
            }
        }
        assert forall|n: Seq<char>| table@.contains_key(n) implies table@[n] == want[n] by {
            assert(agreed(all, n, table@[n]));
            let v = choose|v: u64| agreed(all, n, v);
            assert(agreed(all, n, v));
        }
        assert(table@ =~= want);
    }
    table
}

/// A definition of another name changes nothing for `n`.
proof fn lemma_other_names(s: Seq<(Seq<char>, Option<u64>)>, t: Seq<(Seq<char>, Option<u64>)>, n: Seq<char>)
    requires
        forall|w: Option<u64>| s.contains((n, w)) <==> #[trigger] t.contains((n, w)),
    ensures
        disputed(s, n) <==> disputed(t, n),
        forall|v: u64| agreed(s, n, v) <==> #[trigger] agreed(t, n, v),
{
    if disputed(s, n) && !s.contains((n, None::<u64>)) {
        let (a, b) = choose|a: Option<u64>, b: Option<u64>|
            a != b && #[trigger] s.contains((n, a)) && #[trigger] s.contains((n, b));
        assert(t.contains((n, a)) && t.contains((n, b)));
    }
    assert(s.contains((n, None::<u64>)) <==> t.contains((n, None::<u64>)));
    assert forall|v: u64| agreed(s, n, v) <==> #[trigger] agreed(t, n, v) by {
        assert(s.contains((n, Some(v))) <==> t.contains((n, Some(v))));
        if agreed(s, n, v) {
            assert forall|w: Option<u64>| t.contains((n, w)) implies w == Some(v) by {
                assert(s.contains((n, w)));
            }
        }
        if agreed(t, n, v) {
            assert forall|w: Option<u64>| s.contains((n, w)) implies w == Some(v) by {
                assert(t.contains((n, w)));
            }
        }
    }
}

/// What one more definition of `n` does to the value of `n`.
proof fn lemma_step(
    s: Seq<(Seq<char>, Option<u64>)>,
    t: Seq<(Seq<char>, Option<u64>)>,
    n: Seq<char>,
    value: Option<u64>,
    table: Map<Seq<char>, u64>,
    rejected: bool,
)
    requires
        forall|w: Option<u64>| #[trigger] t.contains((n, w)) <==> s.contains((n, w)) || w == value,
        rejected <==> disputed(s, n),
        forall|v: u64| #[trigger] agreed(s, n, v) <==> table.contains_key(n) && table[n] == v,
    ensures
        disputed(t, n) <==> rejected || value is None || (table.contains_key(n) && value != Some(table[n])),
        forall|v: u64| #[trigger] agreed(t, n, v) <==> !disputed(t, n) && value == Some(v),
        rejected ==> !table.contains_key(n),
{
    assert(t.contains((n, value)));
    lemma_agreed_or_disputed(t, n, value);
    if rejected && !s.contains((n, None::<u64>)) {
        let (a, b) = choose|a: Option<u64>, b: Option<u64>|
            a != b && #[trigger] s.contains((n, a)) && #[trigger] s.contains((n, b));
        assert(t.contains((n, a)) && t.contains((n, b)));
    }
    if rejected && s.contains((n, None::<u64>)) {
        assert(t.contains((n, None::<u64>)));
    }
    if table.contains_key(n) {
        assert(agreed(s, n, table[n]));
        assert(t.contains((n, Some(table[n]))));
        lemma_agreed_or_disputed(s, n, Some(table[n]));
    }
    if !rejected && value is Some && disputed(t, n) {
        if !table.contains_key(n) {
            assert forall|w: Option<u64>| !s.contains((n, w)) by {
                if s.contains((n, w)) {
                    lemma_agreed_or_disputed(s, n, w);
                    assert(agreed(s, n, w->0));
                }
            }
            assert(!t.contains((n, None::<u64>)));
        } else {
            assert(!t.contains((n, None::<u64>)) || value is None);
        }
    }
}

// ── What holds of every table ────────────────────────────────────────────────

/// A project gives a name a value exactly if its files agree on that value. So it never
/// guesses between two, nor passes over a definition that it cannot read.
pub proof fn project_macros_are_agreed(
    definitions: Seq<(Seq<char>, Option<u64>)>,
    name: Seq<char>,
    v: u64,
)
    ensures
        value_of(agreed_table(definitions), name) == Some(v) <==> agreed(definitions, name, v),
        disputed(definitions, name) ==> value_of(agreed_table(definitions), name) is None,
{
    let table = agreed_table(definitions);
    if agreed(definitions, name, v) {
        assert(table.contains_key(name));
        let w = choose|w: u64| agreed(definitions, name, w);
        assert(agreed(definitions, name, w));
    }
    if table.contains_key(name) {
        let w = choose|w: u64| agreed(definitions, name, w);
        assert(agreed(definitions, name, w));
        assert(table[name] == w);
        lemma_agreed_or_disputed(definitions, name, Some(w));
    }
}

/// The macros of a project depend on which definitions there are, and not on their order.
pub proof fn project_macros_ignore_order(
    a: Seq<(Seq<char>, Option<u64>)>,
    b: Seq<(Seq<char>, Option<u64>)>,
)
    requires
        forall|d: (Seq<char>, Option<u64>)| #[trigger] a.contains(d) <==> b.contains(d),
    ensures
        agreed_table(a) == agreed_table(b),
{
    let (s, t) = (agreed_table(a), agreed_table(b));
    assert forall|name: Seq<char>, v: u64| #[trigger] agreed(a, name, v) <==> agreed(b, name, v) by {
        assert forall|w: Option<u64>| a.contains((name, w)) <==> #[trigger] b.contains((name, w)) by {
            assert(a.contains((name, w)) <==> b.contains((name, w)));
        }
        lemma_other_names(a, b, name);
        assert(agreed(a, name, v) <==> agreed(b, name, v));
    }
    assert forall|name: Seq<char>| s.contains_key(name) <==> t.contains_key(name) by {
        if s.contains_key(name) {
            let v = choose|v: u64| agreed(a, name, v);
            assert(agreed(b, name, v));
        }
        if t.contains_key(name) {
            let v = choose|v: u64| agreed(b, name, v);
            assert(agreed(a, name, v));
        }
    }
    assert forall|name: Seq<char>| s.contains_key(name) implies s[name] == t[name] by {
        let v = choose|v: u64| agreed(a, name, v);
        let w = choose|w: u64| agreed(b, name, w);
        assert(agreed(a, name, v));
        assert(agreed(a, name, w));
        assert(a.contains((name, Some(w))));
    }
    assert(s =~= t);
}

/// What a file defines itself counts there, whatever the project says: the integer that
/// it gives a name, or that it gives it none.
pub proof fn own_macros_come_first(
    own: Map<Seq<char>, Option<u64>>,
    project: Map<Seq<char>, u64>,
    name: Seq<char>,
)
    ensures
        value_of(in_effect(own, project), name) == (if own.contains_key(name) {
            own[name]
        } else {
            value_of(project, name)
        }),
{
}

} // verus!
