//! The order in which the files of a project are given does not matter.

use vstd::prelude::*;

use crate::c_source;
use crate::checker;
use crate::checker_laws;
use crate::finding::{CheckResultView, Finding, FindingView, Noted, NotedView};
use crate::fw_parse;
use crate::fw_parse::{HalCallView, RegisterAccessView, SourceFileView};
use crate::fw_parse_laws;
use crate::hal_check;
use crate::macros;
use crate::order;
use crate::order::SortKey;
use crate::path_order;
use crate::project;
use crate::svd_model::ModelView;

verus! {

broadcast use crate::finding::group_outcomes;

// ── Files ────────────────────────────────────────────────────────────────────

/// Whether two paths lead to the same place, name by name.
pub open spec fn same_path(a: Seq<char>, b: Seq<char>) -> bool {
    !path_order::path_before(a, b) && !path_order::path_before(b, a)
}

proof fn lemma_same_path(a: Seq<char>, b: Seq<char>, c: Seq<char>)
    requires
        same_path(a, c),
        same_path(b, c),
    ensures
        same_path(a, b),
{
    if path_order::path_before(a, b) {
        path_order::lemma_path_between(a, c, b);
    }
    if path_order::path_before(b, a) {
        path_order::lemma_path_between(b, c, a);
    }
}

/// Whether no file occurs twice.
pub open spec fn distinct_files(files: Seq<SourceFileView>) -> bool {
    forall|i: int, j: int|
        0 <= i < files.len() && 0 <= j < files.len() && i != j ==> !same_path(
            (#[trigger] files[i]).path,
            (#[trigger] files[j]).path,
        )
}

/// Whether two lists hold the same files.
pub open spec fn same_files(a: Seq<SourceFileView>, b: Seq<SourceFileView>) -> bool {
    forall|f: SourceFileView| #[trigger] a.contains(f) <==> b.contains(f)
}

// ── What the files add up to ─────────────────────────────────────────────────

/// What each file gives, file by file.
pub open spec fn gathered<V>(files: Seq<SourceFileView>, part: spec_fn(SourceFileView) -> Seq<V>) -> Seq<V>
    decreases files.len(),
{
    if files.len() == 0 {
        Seq::empty()
    } else {
        gathered(files.drop_last(), part) + part(files.last())
    }
}

/// Under a key that only the file `path` can have stands what that file gives.
proof fn lemma_gathered_under_key<T: SortKey>(
    files: Seq<SourceFileView>,
    part: spec_fn(SourceFileView) -> Seq<T::V>,
    k: T::V,
    path: Seq<char>,
)
    requires
        distinct_files(files),
        forall|f: SourceFileView|
            !same_path(f.path, path) ==> order::with_key::<T>(#[trigger] part(f), k) == Seq::<T::V>::empty(),
    ensures
        forall|i: int|
            0 <= i < files.len() && same_path((#[trigger] files[i]).path, path) ==> order::with_key::<T>(
                gathered(files, part),
                k,
            ) == order::with_key::<T>(part(files[i]), k),
        (forall|i: int| 0 <= i < files.len() ==> !same_path((#[trigger] files[i]).path, path)) ==> order::with_key::<T>(
            gathered(files, part),
            k,
        ) == Seq::<T::V>::empty(),
    decreases files.len(),
{
    if files.len() > 0 {
        let rest = files.drop_last();
        let last = files.last();
        assert forall|i: int, j: int| 0 <= i < rest.len() && 0 <= j < rest.len() && i != j implies !same_path(
            (#[trigger] rest[i]).path,
            (#[trigger] rest[j]).path,
        ) by {
            assert(rest[i] == files[i] && rest[j] == files[j]);
        }
        lemma_gathered_under_key::<T>(rest, part, k, path);
        order::lemma_with_key_concat::<T>(gathered(rest, part), part(last), k);
        assert(files[files.len() - 1] == last);
        if same_path(last.path, path) {
            assert forall|i: int| 0 <= i < rest.len() implies !same_path((#[trigger] rest[i]).path, path) by {
                assert(rest[i] == files[i]);
                if same_path(rest[i].path, path) {
                    lemma_same_path(files[i].path, files[files.len() - 1].path, path);
                }
            }
            assert(Seq::<T::V>::empty() + order::with_key::<T>(part(last), k) =~= order::with_key::<T>(part(last), k));
            assert forall|i: int| 0 <= i < files.len() && same_path((#[trigger] files[i]).path, path) implies i
                == files.len() - 1 by {
                if i < files.len() - 1 {
                    assert(rest[i] == files[i]);
                }
            }
        } else {
            assert(order::with_key::<T>(part(last), k) == Seq::<T::V>::empty());
            let before = order::with_key::<T>(gathered(rest, part), k);
            assert(before + Seq::<T::V>::empty() =~= before);
            assert forall|i: int| 0 <= i < files.len() && same_path((#[trigger] files[i]).path, path) implies order::with_key::<
                T,
            >(gathered(files, part), k) == order::with_key::<T>(part(files[i]), k) by {
                assert(rest[i] == files[i]);
            }
            if forall|i: int| 0 <= i < files.len() ==> !same_path((#[trigger] files[i]).path, path) {
                assert forall|i: int| 0 <= i < rest.len() implies !same_path((#[trigger] rest[i]).path, path) by {
                    assert(rest[i] == files[i]);
                }
            }
        }
    }
}

/// The same files in another order give the same under each key.
proof fn lemma_gathered_same<T: SortKey>(
    a: Seq<SourceFileView>,
    b: Seq<SourceFileView>,
    part: spec_fn(SourceFileView) -> Seq<T::V>,
    k: T::V,
    path: Seq<char>,
)
    requires
        distinct_files(a),
        distinct_files(b),
        same_files(a, b),
        forall|f: SourceFileView|
            !same_path(f.path, path) ==> order::with_key::<T>(#[trigger] part(f), k) == Seq::<T::V>::empty(),
    ensures
        order::with_key::<T>(gathered(a, part), k) == order::with_key::<T>(gathered(b, part), k),
{
    lemma_gathered_under_key::<T>(a, part, k, path);
    lemma_gathered_under_key::<T>(b, part, k, path);
    if exists|i: int| 0 <= i < a.len() && same_path((#[trigger] a[i]).path, path) {
        let i = choose|i: int| 0 <= i < a.len() && same_path((#[trigger] a[i]).path, path);
        assert(a.contains(a[i]));
        let j = b.index_of(a[i]);
        assert(b[j] == a[i]);
    } else if exists|j: int| 0 <= j < b.len() && same_path((#[trigger] b[j]).path, path) {
        let j = choose|j: int| 0 <= j < b.len() && same_path((#[trigger] b[j]).path, path);
        assert(b.contains(b[j]));
        assert(a.contains(b[j]));
        let i = a.index_of(b[j]);
        assert(a[i] == b[j]);
    }
}

// ── What one file gives ──────────────────────────────────────────────────────

pub open spec fn access_part(model: ModelView, table: Map<Seq<char>, u64>, f: SourceFileView) -> CheckResultView {
    checker::accesses_outcome(model, fw_parse::source_accesses(f.source, f.path, table))
}

pub open spec fn call_part(model: ModelView, table: Map<Seq<char>, u64>, f: SourceFileView) -> CheckResultView {
    hal_check::calls_outcome(model, fw_parse::source_hal_calls(f.source, f.path, table))
}

proof fn lemma_access_part_places(model: ModelView, table: Map<Seq<char>, u64>, f: SourceFileView)
    ensures
        forall|i: int|
            0 <= i < access_part(model, table, f).findings.len() ==> (#[trigger] access_part(
                model,
                table,
                f,
            ).findings[i]).file == f.path,
        forall|i: int|
            0 <= i < access_part(model, table, f).notes.len() ==> (#[trigger] access_part(model, table, f).notes[i]).file
                == f.path,
{
    let accesses = fw_parse::source_accesses(f.source, f.path, table);
    let out = access_part(model, table, f);
    assert forall|k: int| 0 <= k < accesses.len() implies (#[trigger] accesses[k]).file == f.path by {
        if let Some(root) = c_source::c_syntax(f.source) {
            fw_parse_laws::accesses_stand_in_their_file(
                root,
                f.path,
                macros::in_effect(macros::macro_table(macros::definitions_in(root)), table),
                k,
            );
        }
    }
    assert forall|i: int| 0 <= i < out.findings.len() implies (#[trigger] out.findings[i]).file == f.path by {
        checker_laws::access_findings_are_grounded(model, accesses, i);
        let k = choose|k: int|
            0 <= k < accesses.len() && checker_laws::access_origin(#[trigger] accesses[k])
                == checker_laws::finding_origin(out.findings[i]);
        assert(accesses[k].file == f.path);
    }
    assert forall|i: int| 0 <= i < out.notes.len() implies (#[trigger] out.notes[i]).file == f.path by {
        checker_laws::access_notes_have_places(model, accesses, i);
    }
}

proof fn lemma_call_part_places(model: ModelView, table: Map<Seq<char>, u64>, f: SourceFileView)
    ensures
        forall|i: int|
            0 <= i < call_part(model, table, f).findings.len() ==> (#[trigger] call_part(
                model,
                table,
                f,
            ).findings[i]).file == f.path,
        forall|i: int|
            0 <= i < call_part(model, table, f).notes.len() ==> (#[trigger] call_part(model, table, f).notes[i]).file
                == f.path,
{
    let calls = fw_parse::source_hal_calls(f.source, f.path, table);
    let out = call_part(model, table, f);
    assert forall|k: int| 0 <= k < calls.len() implies (#[trigger] calls[k]).file == f.path by {
        if let Some(root) = c_source::c_syntax(f.source) {
            fw_parse_laws::calls_are_of_modelled_functions(
                root,
                f.path,
                macros::in_effect(macros::macro_table(macros::definitions_in(root)), table),
                k,
            );
        }
    }
    assert forall|i: int| 0 <= i < out.findings.len() implies (#[trigger] out.findings[i]).file == f.path by {
        checker_laws::call_findings_are_grounded(model, calls, i);
        let k = choose|k: int|
            0 <= k < calls.len() && checker_laws::call_origin(#[trigger] calls[k]) == checker_laws::finding_origin(
                out.findings[i],
            );
        assert(calls[k].file == f.path);
    }
    assert forall|i: int| 0 <= i < out.notes.len() implies (#[trigger] out.notes[i]).file == f.path by {
        checker_laws::call_notes_have_places(model, calls, i);
    }
}

/// The outcome of a project is made of what its files give.
proof fn lemma_outcome_gathered(model: ModelView, files: Seq<SourceFileView>, table: Map<Seq<char>, u64>)
    ensures
        ({
            let a = checker::accesses_outcome(model, project::file_accesses(files, table));
            let c = hal_check::calls_outcome(model, project::file_calls(files, table));
            &&& a.findings == gathered(files, |f: SourceFileView| access_part(model, table, f).findings)
            &&& a.notes == gathered(files, |f: SourceFileView| access_part(model, table, f).notes)
            &&& c.findings == gathered(files, |f: SourceFileView| call_part(model, table, f).findings)
            &&& c.notes == gathered(files, |f: SourceFileView| call_part(model, table, f).notes)
        }),
    decreases files.len(),
{
    if files.len() > 0 {
        let rest = files.drop_last();
        let last = files.last();
        lemma_outcome_gathered(model, rest, table);
        checker_laws::access_checks_concatenate(
            model,
            project::file_accesses(rest, table),
            fw_parse::source_accesses(last.source, last.path, table),
        );
        checker_laws::call_checks_concatenate(
            model,
            project::file_calls(rest, table),
            fw_parse::source_hal_calls(last.source, last.path, table),
        );
    }
}

// ── Macros ───────────────────────────────────────────────────────────────────

/// The macro definitions of one file.
pub open spec fn own_definitions(f: SourceFileView) -> Seq<(Seq<char>, Option<u64>)> {
    match c_source::c_syntax(f.source) {
        Some(root) => macros::settled(macros::definitions_in(root)),
        None => Seq::empty(),
    }
}

proof fn lemma_definition_of_a_file(files: Seq<SourceFileView>, d: (Seq<char>, Option<u64>))
    ensures
        fw_parse::project_definitions(files).contains(d) <==> exists|i: int|
            0 <= i < files.len() && own_definitions(#[trigger] files[i]).contains(d),
    decreases files.len(),
{
    if files.len() > 0 {
        let rest = files.drop_last();
        lemma_definition_of_a_file(rest, d);
        let before = fw_parse::project_definitions(rest);
        let own = own_definitions(files.last());
        fw_parse_laws::lemma_concat_contains(before, own, d);
        assert(files[files.len() - 1] == files.last());
        if before.contains(d) {
            let i = choose|i: int| 0 <= i < rest.len() && own_definitions(#[trigger] rest[i]).contains(d);
            assert(files[i] == rest[i]);
        }
        if exists|i: int| 0 <= i < files.len() && own_definitions(#[trigger] files[i]).contains(d) {
            let i = choose|i: int| 0 <= i < files.len() && own_definitions(#[trigger] files[i]).contains(d);
            if i < rest.len() {
                assert(rest[i] == files[i]);
            }
        }
    } else {
        assert(fw_parse::project_definitions(files) =~= Seq::empty());
    }
}

proof fn lemma_same_macros(a: Seq<SourceFileView>, b: Seq<SourceFileView>)
    requires
        same_files(a, b),
    ensures
        macros::agreed_table(fw_parse::project_definitions(a)) == macros::agreed_table(
            fw_parse::project_definitions(b),
        ),
{
    let (x, y) = (fw_parse::project_definitions(a), fw_parse::project_definitions(b));
    assert forall|d: (Seq<char>, Option<u64>)| #[trigger] x.contains(d) <==> y.contains(d) by {
        lemma_definition_of_a_file(a, d);
        lemma_definition_of_a_file(b, d);
        if x.contains(d) {
            let i = choose|i: int| 0 <= i < a.len() && own_definitions(#[trigger] a[i]).contains(d);
            assert(a.contains(a[i]));
            assert(b[b.index_of(a[i])] == a[i]);
        }
        if y.contains(d) {
            let i = choose|i: int| 0 <= i < b.len() && own_definitions(#[trigger] b[i]).contains(d);
            assert(b.contains(b[i]));
            assert(a.contains(b[i]));
            assert(a[a.index_of(b[i])] == b[i]);
        }
    }
    macros::project_macros_ignore_order(x, y);
}

// ── The law ──────────────────────────────────────────────────────────────────

proof fn lemma_findings_same(
    model: ModelView,
    a: Seq<SourceFileView>,
    b: Seq<SourceFileView>,
    table: Map<Seq<char>, u64>,
    k: FindingView,
)
    requires
        distinct_files(a),
        distinct_files(b),
        same_files(a, b),
    ensures
        ({
            let x = |f: SourceFileView| access_part(model, table, f).findings;
            let y = |f: SourceFileView| call_part(model, table, f).findings;
            order::with_key::<Finding>(gathered(a, x) + gathered(a, y), k) == order::with_key::<Finding>(
                gathered(b, x) + gathered(b, y),
                k,
            )
        }),
{
    let x = |f: SourceFileView| access_part(model, table, f).findings;
    let y = |f: SourceFileView| call_part(model, table, f).findings;
    assert forall|f: SourceFileView| !same_path(f.path, k.file) implies order::with_key::<Finding>(
        #[trigger] x(f),
        k,
    ) == Seq::<FindingView>::empty() by {
        lemma_access_part_places(model, table, f);
        order::lemma_without_key::<Finding>(x(f), k);
    }
    assert forall|f: SourceFileView| !same_path(f.path, k.file) implies order::with_key::<Finding>(
        #[trigger] y(f),
        k,
    ) == Seq::<FindingView>::empty() by {
        lemma_call_part_places(model, table, f);
        order::lemma_without_key::<Finding>(y(f), k);
    }
    lemma_gathered_same::<Finding>(a, b, x, k, k.file);
    lemma_gathered_same::<Finding>(a, b, y, k, k.file);
    order::lemma_with_key_concat::<Finding>(gathered(a, x), gathered(a, y), k);
    order::lemma_with_key_concat::<Finding>(gathered(b, x), gathered(b, y), k);
}

proof fn lemma_notes_same(
    model: ModelView,
    a: Seq<SourceFileView>,
    b: Seq<SourceFileView>,
    table: Map<Seq<char>, u64>,
    k: NotedView,
)
    requires
        distinct_files(a),
        distinct_files(b),
        same_files(a, b),
    ensures
        ({
            let x = |f: SourceFileView| access_part(model, table, f).notes;
            let y = |f: SourceFileView| call_part(model, table, f).notes;
            order::with_key::<Noted>(gathered(a, x) + gathered(a, y), k) == order::with_key::<Noted>(
                gathered(b, x) + gathered(b, y),
                k,
            )
        }),
{
    let x = |f: SourceFileView| access_part(model, table, f).notes;
    let y = |f: SourceFileView| call_part(model, table, f).notes;
    assert forall|f: SourceFileView| !same_path(f.path, k.file) implies order::with_key::<Noted>(
        #[trigger] x(f),
        k,
    ) == Seq::<NotedView>::empty() by {
        lemma_access_part_places(model, table, f);
        order::lemma_without_key::<Noted>(x(f), k);
    }
    assert forall|f: SourceFileView| !same_path(f.path, k.file) implies order::with_key::<Noted>(
        #[trigger] y(f),
        k,
    ) == Seq::<NotedView>::empty() by {
        lemma_call_part_places(model, table, f);
        order::lemma_without_key::<Noted>(y(f), k);
    }
    lemma_gathered_same::<Noted>(a, b, x, k, k.file);
    lemma_gathered_same::<Noted>(a, b, y, k, k.file);
    order::lemma_with_key_concat::<Noted>(gathered(a, x), gathered(a, y), k);
    order::lemma_with_key_concat::<Noted>(gathered(b, x), gathered(b, y), k);
}

/// The same files in another order, none of them twice, have the same outcome: the same
/// findings and the same notes, in the same order. So the report is the same, byte for
/// byte, and the check fails or does not fail alike.
pub proof fn file_order_does_not_matter(model: ModelView, a: Seq<SourceFileView>, b: Seq<SourceFileView>)
    requires
        distinct_files(a),
        distinct_files(b),
        same_files(a, b),
    ensures
        project::project_outcome(model, a) == project::project_outcome(model, b),
{
    lemma_same_macros(a, b);
    let table = macros::agreed_table(fw_parse::project_definitions(a));
    lemma_outcome_gathered(model, a, table);
    lemma_outcome_gathered(model, b, table);
    let x = checker::accesses_outcome(model, project::file_accesses(a, table)).then_also(
        hal_check::calls_outcome(model, project::file_calls(a, table)),
    );
    let y = checker::accesses_outcome(model, project::file_accesses(b, table)).then_also(
        hal_check::calls_outcome(model, project::file_calls(b, table)),
    );
    assert forall|k: FindingView| #[trigger] order::with_key::<Finding>(x.findings, k) == order::with_key::<Finding>(
        y.findings,
        k,
    ) by {
        lemma_findings_same(model, a, b, table, k);
    }
    assert forall|k: NotedView| #[trigger] order::with_key::<Noted>(x.notes, k) == order::with_key::<Noted>(
        y.notes,
        k,
    ) by {
        lemma_notes_same(model, a, b, table, k);
    }
    order::sorting_goes_by_keys::<Finding>(x.findings, y.findings);
    order::sorting_goes_by_keys::<Noted>(x.notes, y.notes);
}

/// A permutation of files that occur once each holds the same files, once each.
pub proof fn permuted_files(a: Seq<SourceFileView>, b: Seq<SourceFileView>)
    requires
        distinct_files(a),
        a.to_multiset() == b.to_multiset(),
    ensures
        distinct_files(b),
        same_files(a, b),
{
    broadcast use vstd::seq_lib::group_to_multiset_ensures;

    assert forall|f: SourceFileView| #[trigger] a.contains(f) <==> b.contains(f) by {
        assert(a.contains(f) <==> a.to_multiset().count(f) > 0);
        assert(b.contains(f) <==> b.to_multiset().count(f) > 0);
    }
    assert forall|i: int, j: int| 0 <= i < b.len() && 0 <= j < b.len() && i != j implies !same_path(
        (#[trigger] b[i]).path,
        (#[trigger] b[j]).path,
    ) by {
        assert(b.contains(b[i]) && b.contains(b[j]));
        assert(a.contains(b[i]) && a.contains(b[j]));
        let p = a.index_of(b[i]);
        let q = a.index_of(b[j]);
        if p == q {
            lemma_twice(b, i, j);
            lemma_once(a, p);
        }
    }
}

proof fn lemma_twice(s: Seq<SourceFileView>, i: int, j: int)
    requires
        0 <= i < s.len(),
        0 <= j < s.len(),
        i != j,
        s[i] == s[j],
    ensures
        s.to_multiset().count(s[i]) >= 2,
    decreases s.len(),
{
    broadcast use vstd::seq_lib::group_to_multiset_ensures;

    let rest = s.drop_last();
    assert(s =~= rest.push(s.last()));
    if i < rest.len() && j < rest.len() {
        assert(rest[i] == s[i] && rest[j] == s[j]);
        lemma_twice(rest, i, j);
    } else {
        let k = if i < rest.len() {
            i
        } else {
            j
        };
        assert(rest[k] == s[i]);
        assert(rest.contains(s[i]));
        assert(rest.to_multiset().count(s[i]) > 0);
    }
}

proof fn lemma_once(s: Seq<SourceFileView>, i: int)
    requires
        distinct_files(s),
        0 <= i < s.len(),
    ensures
        s.to_multiset().count(s[i]) == 1,
    decreases s.len(),
{
    broadcast use vstd::seq_lib::group_to_multiset_ensures;

    let rest = s.drop_last();
    assert(s =~= rest.push(s.last()));
    assert forall|a: int, b: int| 0 <= a < rest.len() && 0 <= b < rest.len() && a != b implies !same_path(
        (#[trigger] rest[a]).path,
        (#[trigger] rest[b]).path,
    ) by {
        assert(rest[a] == s[a] && rest[b] == s[b]);
    }
    let last = s.len() - 1;
    if i < last {
        lemma_once(rest, i);
        assert(rest[i] == s[i]);
        assert(!same_path(s[i].path, s[last].path));
        path_order::lemma_path_asymmetric(s[i].path, s[i].path);
    } else {
        if rest.contains(s[i]) {
            let k = rest.index_of(s[i]);
            assert(rest[k] == s[k]);
            assert(!same_path(s[k].path, s[last].path));
            path_order::lemma_path_asymmetric(s[i].path, s[i].path);
        }
        assert(rest.to_multiset().count(s[i]) == 0);
    }
}

} // verus!
