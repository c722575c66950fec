//! What a check comes to: whether it fails, what a baseline leaves of it, and in which
//! order it is reported.

use vstd::prelude::*;

use crate::baseline;
use crate::baseline::BaselineEntryView;
use crate::checker;
use crate::checker_laws;
use crate::finding::{
    CheckResultView, Finding, FindingKindView, FindingView, IndexEvidenceView, Noted, NotedView, Severity,
};
use crate::fw_parse;
use crate::fw_parse::{HalCallView, RegisterAccessView, SourceFileView};
use crate::hal_check;
use crate::macros;
use crate::options::{FailOn, Format};
use crate::order;
use crate::path_order;
use crate::project;
use crate::project::{Conclusion, ReportOptions};
use crate::report;
use crate::sarif;
use crate::svd_model::ModelView;

verus! {

broadcast use crate::finding::group_outcomes;

// ── Failing ──────────────────────────────────────────────────────────────────

/// A check that is to fail on errors fails exactly if some finding, wherever it stands, is
/// an error; one that is to fail on warnings exactly if there is a finding; and another one
/// never.
pub proof fn findings_anywhere_make_a_check_fail(findings: Seq<FindingView>)
    ensures
        project::fails(findings, FailOn::Error) <==> exists|i: int|
            0 <= i < findings.len() && (#[trigger] findings[i]).severity == Severity::Error,
        project::fails(findings, FailOn::Warning) <==> exists|i: int|
            0 <= i < findings.len() && ((#[trigger] findings[i]).severity == Severity::Error || findings[i].severity
                == Severity::Warning),
        !project::fails(findings, FailOn::Never),
{
    if findings.len() > 0 {
        assert(findings[0].severity == Severity::Error || findings[0].severity == Severity::Warning);
    }
}

/// A further finding, wherever it is put, makes no failing check pass.
pub proof fn more_findings_do_not_help(a: Seq<FindingView>, f: FindingView, b: Seq<FindingView>, fail_on: FailOn)
    requires
        project::fails(a + b, fail_on),
    ensures
        project::fails(a + seq![f] + b, fail_on),
{
    let before = a + b;
    let after = a + seq![f] + b;
    if fail_on == FailOn::Error {
        let i = choose|i: int| 0 <= i < before.len() && (#[trigger] before[i]).severity == Severity::Error;
        if i < a.len() {
            assert(after[i] == before[i]);
        } else {
            assert(after[i + 1] == before[i]);
        }
    }
}

/// An error among the findings makes the check fail on errors, however many warnings stand
/// before and behind it.
pub proof fn one_error_is_enough(a: Seq<FindingView>, f: FindingView, b: Seq<FindingView>)
    requires
        f.severity == Severity::Error,
    ensures
        project::fails(a + seq![f] + b, FailOn::Error),
        project::fails(a + seq![f] + b, FailOn::Warning),
{
    assert((a + seq![f] + b)[a.len() as int] == f);
}

/// Warnings alone make no check fail that is to fail on errors.
pub proof fn warnings_are_no_errors(findings: Seq<FindingView>)
    requires
        forall|i: int| 0 <= i < findings.len() ==> (#[trigger] findings[i]).severity == Severity::Warning,
    ensures
        !project::fails(findings, FailOn::Error),
        project::fails(findings, FailOn::Warning) <==> findings.len() > 0,
{
}

/// Whether a check fails does not depend on the order of the findings.
pub proof fn the_order_does_not_decide(a: Seq<FindingView>, b: Seq<FindingView>, fail_on: FailOn)
    requires
        a.to_multiset() == b.to_multiset(),
    ensures
        project::fails(a, fail_on) <==> project::fails(b, fail_on),
{
    broadcast use vstd::seq_lib::group_to_multiset_ensures;

    assert(a.to_multiset().len() == a.len());
    assert(b.to_multiset().len() == b.len());
    if fail_on == FailOn::Error {
        if project::fails(a, fail_on) {
            let i = choose|i: int| 0 <= i < a.len() && (#[trigger] a[i]).severity == Severity::Error;
            assert(a.contains(a[i]));
            assert(b.to_multiset().count(a[i]) > 0);
            assert(b.contains(a[i]));
        }
        if project::fails(b, fail_on) {
            let i = choose|i: int| 0 <= i < b.len() && (#[trigger] b[i]).severity == Severity::Error;
            assert(b.contains(b[i]));
            assert(a.to_multiset().count(b[i]) > 0);
            assert(a.contains(b[i]));
        }
    }
}

// ── Baselines ────────────────────────────────────────────────────────────────

/// Whether an entry of the baseline has the file, the line and the rule of a finding.
pub open spec fn known(f: FindingView, baseline: Option<Seq<BaselineEntryView>>) -> bool {
    baseline matches Some(entries) && exists|i: int|
        0 <= i < entries.len() && (#[trigger] entries[i]).file == f.file && entries[i].line == f.line
            && entries[i].rule_id == f.kind.rule_id()
}

/// What is reported is what is not known, in the same order.
pub proof fn known_findings_are_left_out(findings: Seq<FindingView>, baseline: Option<Seq<BaselineEntryView>>)
    ensures
        project::reported(findings, baseline) == findings.filter(|f: FindingView| !known(f, baseline)),
    decreases findings.len(),
{
    reveal(Seq::filter);
    let keep = |f: FindingView| !known(f, baseline);
    match baseline {
        None => {
            if findings.len() > 0 {
                known_findings_are_left_out(findings.drop_last(), baseline);
                assert(findings.drop_last().push(findings.last()) =~= findings);
            } else {
                assert(findings =~= findings.filter(keep));
            }
        },
        Some(entries) => {
            if findings.len() > 0 {
                let last = findings.last();
                known_findings_are_left_out(findings.drop_last(), baseline);
                let entry = baseline::entry_of(last);
                if entries.contains(entry) {
                    let i = entries.index_of(entry);
                    assert(entries[i].file == last.file && entries[i].line == last.line && entries[i].rule_id
                        == last.kind.rule_id());
                }
                if known(last, baseline) {
                    let i = choose|i: int|
                        0 <= i < entries.len() && (#[trigger] entries[i]).file == last.file && entries[i].line
                            == last.line && entries[i].rule_id == last.kind.rule_id();
                    assert(entries[i] == entry);
                }
            } else {
                assert(findings =~= findings.filter(keep));
            }
        },
    }
}

/// A baseline has the file, the line and the rule of each finding that it is written of.
pub proof fn baselines_hold_every_finding(findings: Seq<FindingView>, i: int)
    requires
        0 <= i < findings.len(),
    ensures
        baseline::entries_of(findings).len() == findings.len(),
        baseline::entries_of(findings)[i].file == findings[i].file,
        baseline::entries_of(findings)[i].line == findings[i].line,
        baseline::entries_of(findings)[i].rule_id == findings[i].kind.rule_id(),
{
}

/// A check ends as failed exactly if something that is not known is grave enough, and says
/// how many findings were known.
pub proof fn conclusions_go_by_what_is_new(
    result: CheckResultView,
    options: ReportOptions,
    sources: Map<Seq<char>, Seq<Seq<char>>>,
    c: Conclusion,
)
    requires
        project::concluded(result, options, sources, Some(c)),
    ensures
        ({
            let baseline = project::baseline_view(options.baseline);
            &&& c.failed <==> exists|i: int|
                0 <= i < result.findings.len() && !known(#[trigger] result.findings[i], baseline) && (
                options.fail_on == FailOn::Warning || (options.fail_on == FailOn::Error && result.findings[i].severity
                    == Severity::Error))
            &&& c.suppressed == result.findings.filter(|f: FindingView| known(f, baseline)).len()
        }),
{
    let baseline = project::baseline_view(options.baseline);
    let all = result.findings;
    let left = project::reported(all, baseline);
    known_findings_are_left_out(all, baseline);
    lemma_filtered(all, baseline);
    if c.failed {
        if options.fail_on == FailOn::Warning {
            assert(left.contains(left[0]));
            let i = all.index_of(left[0]);
            assert(!known(all[i], baseline));
        } else {
            let k = choose|k: int| 0 <= k < left.len() && (#[trigger] left[k]).severity == Severity::Error;
            assert(left.contains(left[k]));
            let i = all.index_of(left[k]);
            assert(!known(all[i], baseline));
        }
    }
    if exists|i: int|
        0 <= i < all.len() && !known(#[trigger] all[i], baseline) && (options.fail_on == FailOn::Warning || (
        options.fail_on == FailOn::Error && all[i].severity == Severity::Error)) {
        let i = choose|i: int|
            0 <= i < all.len() && !known(#[trigger] all[i], baseline) && (options.fail_on == FailOn::Warning || (
            options.fail_on == FailOn::Error && all[i].severity == Severity::Error));
        assert(all.contains(all[i]));
        assert(left.contains(all[i]));
        let k = left.index_of(all[i]);
        assert(left[k].severity == all[i].severity);
    }
}

proof fn lemma_filtered(all: Seq<FindingView>, baseline: Option<Seq<BaselineEntryView>>)
    ensures
        ({
            let left = all.filter(|f: FindingView| !known(f, baseline));
            let gone = all.filter(|f: FindingView| known(f, baseline));
            &&& left.len() + gone.len() == all.len()
            &&& forall|f: FindingView| #[trigger] left.contains(f) <==> all.contains(f) && !known(f, baseline)
        }),
    decreases all.len(),
{
    reveal(Seq::filter);
    let left = all.filter(|f: FindingView| !known(f, baseline));
    if all.len() > 0 {
        let rest = all.drop_last();
        let last = all.last();
        lemma_filtered(rest, baseline);
        let before = rest.filter(|f: FindingView| !known(f, baseline));
        assert forall|f: FindingView| #[trigger] left.contains(f) <==> all.contains(f) && !known(f, baseline) by {
            assert(all =~= rest.push(last));
            crate::fw_parse_laws::lemma_concat_contains(rest, seq![last], f);
            assert(rest + seq![last] =~= all);
            assert(seq![last].contains(f) <==> f == last) by {
                assert(seq![last][0] == last);
            }
            assert(before.contains(f) <==> rest.contains(f) && !known(f, baseline));
            if !known(last, baseline) {
                assert(left =~= before + seq![last]);
                crate::fw_parse_laws::lemma_concat_contains(before, seq![last], f);
            } else {
                assert(left =~= before);
            }
        }
    }
}

// ── Severities and rules ─────────────────────────────────────────────────────

/// Bits outside all fields and bits of read-only fields are warnings; every other finding
/// is an error.
pub proof fn severities(kind: FindingKindView)
    ensures
        kind.severity() == Severity::Warning <==> kind is ValueSetsUndefinedBits || kind is WriteToReadOnlyField,
        kind.severity() == Severity::Error <==> !(kind is ValueSetsUndefinedBits || kind is WriteToReadOnlyField),
{
}

/// Each finding has the name of its rule.
pub proof fn rules_have_their_names(kind: FindingKindView)
    ensures
        kind is NonexistentRegister <==> kind.rule_id() == "nonexistent-register"@,
        kind is AddressNotARegister <==> kind.rule_id() == "address-not-a-register"@,
        kind is ValueExceedsRegisterWidth <==> kind.rule_id() == "value-exceeds-register-width"@,
        kind is ValueSetsUndefinedBits <==> kind.rule_id() == "value-sets-undefined-bits"@,
        kind is FieldValueNotInEnum <==> kind.rule_id() == "field-value-not-in-enum"@,
        kind is WriteToReadOnlyRegister <==> kind.rule_id() == "write-to-read-only-register"@,
        kind is WriteToReadOnlyField <==> kind.rule_id() == "write-to-read-only-field"@,
        kind is HalCallPinOutOfRange <==> kind.rule_id() == "hal-call-pin-out-of-range"@,
        kind is HalCallFuncselNotInEnum <==> kind.rule_id() == "hal-call-funcsel-not-in-enum"@,
        kind is HalCallIndexOutOfRange <==> kind.rule_id() == "hal-call-index-out-of-range"@,
        kind is HalCallInstanceNotInSvd <==> kind.rule_id() == "hal-call-instance-not-in-svd"@,
{
    checker_laws::rules_identify_kinds(kind, FindingKindView::NonexistentRegister { peripheral: Seq::empty(), register: Seq::empty() });
    checker_laws::rules_identify_kinds(kind, FindingKindView::AddressNotARegister { peripheral: Seq::empty(), address: 0 });
    checker_laws::rules_identify_kinds(
        kind,
        FindingKindView::ValueExceedsRegisterWidth { peripheral: Seq::empty(), register: Seq::empty(), value: 0, size_bits: 0 },
    );
    checker_laws::rules_identify_kinds(
        kind,
        FindingKindView::ValueSetsUndefinedBits { peripheral: Seq::empty(), register: Seq::empty(), value: 0, defined_mask: 0 },
    );
    checker_laws::rules_identify_kinds(
        kind,
        FindingKindView::FieldValueNotInEnum {
            peripheral: Seq::empty(),
            register: Seq::empty(),
            field: Seq::empty(),
            value: 0,
            allowed: Seq::empty(),
        },
    );
    checker_laws::rules_identify_kinds(
        kind,
        FindingKindView::WriteToReadOnlyRegister { peripheral: Seq::empty(), register: Seq::empty() },
    );
    checker_laws::rules_identify_kinds(
        kind,
        FindingKindView::WriteToReadOnlyField { peripheral: Seq::empty(), register: Seq::empty(), field: Seq::empty() },
    );
    checker_laws::rules_identify_kinds(kind, FindingKindView::HalCallPinOutOfRange { function: Seq::empty(), pin: 0 });
    checker_laws::rules_identify_kinds(
        kind,
        FindingKindView::HalCallFuncselNotInEnum { pin: 0, func: 0, allowed: Seq::empty() },
    );
    checker_laws::rules_identify_kinds(
        kind,
        FindingKindView::HalCallIndexOutOfRange {
            function: Seq::empty(),
            arg_index: 0,
            index: 0,
            evidence: IndexEvidenceView::NoSuchPwmChannel,
        },
    );
    checker_laws::rules_identify_kinds(
        kind,
        FindingKindView::HalCallInstanceNotInSvd {
            function: Seq::empty(),
            instance: Seq::empty(),
            peripheral: Seq::empty(),
        },
    );
}

// ── The order of a report ────────────────────────────────────────────────────

/// A report holds what both checks found, each as often as it was found, and none twice;
/// in one file it goes by the lines.
pub proof fn reports_hold_both_checks(model: ModelView, accesses: Seq<RegisterAccessView>, calls: Seq<HalCallView>)
    ensures
        ({
            let a = checker::accesses_outcome(model, accesses);
            let b = hal_check::calls_outcome(model, calls);
            let out = project::merged_outcome(model, accesses, calls);
            &&& out.findings.to_multiset() == (a.findings + b.findings).to_multiset()
            &&& out.notes.to_multiset() == (a.notes + b.notes).to_multiset()
            &&& forall|i: int, j: int|
                #![trigger out.findings[i], out.findings[j]]
                0 <= i < j < out.findings.len() && out.findings[i].file == out.findings[j].file
                    ==> out.findings[i].line <= out.findings[j].line
            &&& forall|i: int, j: int|
                #![trigger out.notes[i], out.notes[j]]
                0 <= i < j < out.notes.len() && out.notes[i].file == out.notes[j].file ==> out.notes[i].line
                    <= out.notes[j].line
            &&& forall|i: int, j: int|
                #![trigger out.findings[i], out.findings[j]]
                0 <= i < j < out.findings.len() ==> !path_order::path_before(out.findings[j].file, out.findings[i].file)
            &&& forall|i: int, j: int|
                #![trigger out.notes[i], out.notes[j]]
                0 <= i < j < out.notes.len() ==> !path_order::path_before(out.notes[j].file, out.notes[i].file)
        }),
{
    let all = checker::accesses_outcome(model, accesses).then_also(hal_check::calls_outcome(model, calls));
    let out = project::merged_outcome(model, accesses, calls);
    order::sorting_orders::<Finding>(all.findings);
    order::sorting_orders::<Noted>(all.notes);
    assert forall|i: int, j: int|
        #![trigger out.findings[i], out.findings[j]]
        0 <= i < j < out.findings.len() && out.findings[i].file == out.findings[j].file implies out.findings[i].line
        <= out.findings[j].line by {
        path_order::lemma_path_asymmetric(out.findings[i].file, out.findings[i].file);
        assert(!project::place_before(
            out.findings[j].file,
            out.findings[j].line,
            out.findings[i].file,
            out.findings[i].line,
        ));
    }
    assert forall|i: int, j: int|
        #![trigger out.notes[i], out.notes[j]]
        0 <= i < j < out.notes.len() && out.notes[i].file == out.notes[j].file implies out.notes[i].line
        <= out.notes[j].line by {
        path_order::lemma_path_asymmetric(out.notes[i].file, out.notes[i].file);
        assert(!project::place_before(out.notes[j].file, out.notes[j].line, out.notes[i].file, out.notes[i].line));
    }
    assert forall|i: int, j: int|
        #![trigger out.findings[i], out.findings[j]]
        0 <= i < j < out.findings.len() implies !path_order::path_before(out.findings[j].file, out.findings[i].file) by {
        assert(!project::place_before(
            out.findings[j].file,
            out.findings[j].line,
            out.findings[i].file,
            out.findings[i].line,
        ));
    }
    assert forall|i: int, j: int|
        #![trigger out.notes[i], out.notes[j]]
        0 <= i < j < out.notes.len() implies !path_order::path_before(out.notes[j].file, out.notes[i].file) by {
        assert(!project::place_before(out.notes[j].file, out.notes[j].line, out.notes[i].file, out.notes[i].line));
    }
}

// ── Projects ─────────────────────────────────────────────────────────────────

/// The accesses and calls of a project are those of its files, one after the other, all
/// with the macros of the whole project.
pub proof fn projects_check_every_file(a: Seq<SourceFileView>, b: Seq<SourceFileView>, table: Map<Seq<char>, u64>)
    ensures
        project::file_accesses(a + b, table) == project::file_accesses(a, table) + project::file_accesses(b, table),
        project::file_calls(a + b, table) == project::file_calls(a, table) + project::file_calls(b, table),
    decreases b.len(),
{
    if b.len() == 0 {
        assert(a + b =~= a);
        assert(project::file_accesses(a, table) + project::file_accesses(b, table) =~= project::file_accesses(a, table));
        assert(project::file_calls(a, table) + project::file_calls(b, table) =~= project::file_calls(a, table));
    } else {
        projects_check_every_file(a, b.drop_last(), table);
        assert((a + b).drop_last() =~= a + b.drop_last());
        assert((a + b).last() == b.last());
        assert(project::file_accesses(a + b, table) =~= project::file_accesses(a, table) + project::file_accesses(
            b,
            table,
        ));
        assert(project::file_calls(a + b, table) =~= project::file_calls(a, table) + project::file_calls(b, table));
    }
}

/// What a project's check finds is what the accesses and the calls of its files give, with
/// the macros that the files agree on.
pub proof fn project_checks_use_shared_macros(model: ModelView, file: SourceFileView, others: Seq<SourceFileView>)
    ensures
        ({
            let files = others.push(file);
            let table = macros::agreed_table(fw_parse::project_definitions(files));
            let own_accesses = fw_parse::source_accesses(file.source, file.path, table);
            let own_calls = fw_parse::source_hal_calls(file.source, file.path, table);
            project::project_outcome(model, files) == project::merged_outcome(
                model,
                project::file_accesses(others, table) + own_accesses,
                project::file_calls(others, table) + own_calls,
            )
        }),
{
    assert(others.push(file).drop_last() =~= others);
}

/// The text report is followed by the notes where they are asked for; a SARIF report is one
/// document of findings and notes.
pub proof fn reports_by_format(
    findings: Seq<FindingView>,
    notes: Seq<NotedView>,
    with_notes: bool,
    color: bool,
    sources: Map<Seq<char>, Seq<Seq<char>>>,
)
    ensures
        ({
            let text = project::report_of(findings, notes, Format::Text, with_notes, color, sources);
            let quiet = project::report_of(findings, notes, Format::Text, false, color, sources);
            let sarif = project::report_of(findings, notes, Format::Sarif, with_notes, color, sources);
            &&& quiet == Some(report::report_text(findings, color, sources))
            &&& with_notes ==> text == Some(quiet->0 + report::notes_report(notes, color, sources))
            &&& !with_notes ==> text == quiet
            &&& sarif == sarif::pretty_json(sarif::sarif_document(findings, notes))
        }),
{
}

} // verus!
