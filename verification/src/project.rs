//! A check of several files: what is found, in which order, and what comes of it.

use vstd::prelude::*;

use crate::baseline;
use crate::baseline::{BaselineEntry, BaselineEntryView};
use crate::checker;
use crate::checker_laws;
use crate::finding::{CheckResult, CheckResultView, Finding, FindingView, Noted, NotedView, Severity};
use crate::fw_parse;
use crate::fw_parse::{HalCall, HalCallView, RegisterAccess, RegisterAccessView, SourceFile, SourceFileView};
use crate::hal_check;
use crate::macros;
use crate::options::{FailOn, Format};
use crate::order;
use crate::order::SortKey;
use crate::path_order;
use crate::report;
use crate::report::SourceCache;
use crate::sarif;
use crate::svd_model::{Model, ModelView};
use crate::text;

verus! {

broadcast use {crate::text::group_views, crate::finding::group_outcomes};

// ── The order of the report ──────────────────────────────────────────────────

/// Whether one place in the source comes before another: by file, then by line.
pub open spec fn place_before(file_a: Seq<char>, line_a: usize, file_b: Seq<char>, line_b: usize) -> bool {
    path_order::path_before(file_a, file_b) || (!path_order::path_before(file_b, file_a) && line_a < line_b)
}

fn place_is_before(file_a: &str, line_a: usize, file_b: &str, line_b: usize) -> (r: bool)
    ensures
        r == place_before(file_a@, line_a, file_b@, line_b),
{
    path_order::path_is_before(file_a, file_b) || (!path_order::path_is_before(file_b, file_a) && line_a < line_b)
}

proof fn lemma_place_between(
    file_a: Seq<char>,
    line_a: usize,
    file_b: Seq<char>,
    line_b: usize,
    file_c: Seq<char>,
    line_c: usize,
)
    requires
        place_before(file_a, line_a, file_c, line_c),
    ensures
        place_before(file_a, line_a, file_b, line_b) || place_before(file_b, line_b, file_c, line_c),
{
    path_order::lemma_path_asymmetric(file_a, file_b);
    path_order::lemma_path_asymmetric(file_b, file_c);
    path_order::lemma_path_asymmetric(file_a, file_c);
    if path_order::path_before(file_a, file_c) {
        path_order::lemma_path_between(file_a, file_b, file_c);
    } else {
        if path_order::path_before(file_b, file_a) {
            path_order::lemma_path_between(file_b, file_c, file_a);
        }
        if path_order::path_before(file_c, file_b) {
            path_order::lemma_path_between(file_c, file_a, file_b);
        }
    }
}

impl SortKey for Finding {
    open spec fn precedes(a: FindingView, b: FindingView) -> bool {
        place_before(a.file, a.line, b.file, b.line)
    }

    proof fn lemma_asymmetric(a: FindingView, b: FindingView) {
        path_order::lemma_path_asymmetric(a.file, b.file);
    }

    proof fn lemma_between(a: FindingView, b: FindingView, c: FindingView) {
        lemma_place_between(a.file, a.line, b.file, b.line, c.file, c.line);
    }

    fn is_before(&self, other: &Self) -> (r: bool) {
        place_is_before(self.file.as_str(), self.line, other.file.as_str(), other.line)
    }
}

impl SortKey for Noted {
    open spec fn precedes(a: NotedView, b: NotedView) -> bool {
        place_before(a.file, a.line, b.file, b.line)
    }

    proof fn lemma_asymmetric(a: NotedView, b: NotedView) {
        path_order::lemma_path_asymmetric(a.file, b.file);
    }

    proof fn lemma_between(a: NotedView, b: NotedView, c: NotedView) {
        lemma_place_between(a.file, a.line, b.file, b.line, c.file, c.line);
    }

    fn is_before(&self, other: &Self) -> (r: bool) {
        place_is_before(self.file.as_str(), self.line, other.file.as_str(), other.line)
    }
}

// ── Checking the files ───────────────────────────────────────────────────────

/// What there is to say of accesses and calls, sorted by place.
pub open spec fn merged_outcome(
    model: ModelView,
    accesses: Seq<RegisterAccessView>,
    calls: Seq<HalCallView>,
) -> CheckResultView {
    let all = checker::accesses_outcome(model, accesses).then_also(hal_check::calls_outcome(model, calls));
    CheckResultView {
        findings: order::sorted::<Finding>(all.findings),
        notes: order::sorted::<Noted>(all.notes),
    }
}

/// The register accesses of the files, file by file.
pub open spec fn file_accesses(files: Seq<SourceFileView>, table: Map<Seq<char>, u64>) -> Seq<RegisterAccessView>
    decreases files.len(),
{
    if files.len() == 0 {
        Seq::empty()
    } else {
        file_accesses(files.drop_last(), table) + fw_parse::source_accesses(
            files.last().source,
            files.last().path,
            table,
        )
    }
}

/// The SDK calls of the files, file by file.
pub open spec fn file_calls(files: Seq<SourceFileView>, table: Map<Seq<char>, u64>) -> Seq<HalCallView>
    decreases files.len(),
{
    if files.len() == 0 {
        Seq::empty()
    } else {
        file_calls(files.drop_last(), table) + fw_parse::source_hal_calls(
            files.last().source,
            files.last().path,
            table,
        )
    }
}

/// What there is to say of the files of a project, which share their macros.
pub open spec fn project_outcome(model: ModelView, files: Seq<SourceFileView>) -> CheckResultView {
    let table = macros::agreed_table(fw_parse::project_definitions(files));
    merged_outcome(model, file_accesses(files, table), file_calls(files, table))
}

/// Checks accesses and calls, and sorts what is found by place.
pub fn check_all(model: &Model, accesses: &[RegisterAccess], calls: &[HalCall]) -> (r: CheckResult)
    ensures
        r@ == merged_outcome(model@, text::views(accesses@), text::views(calls@)),
{
    let mut result = checker::check(model, accesses);
    let mut hal_result = hal_check::check_hal_calls(model, calls);
    let ghost a = result.findings@;
    let ghost b = hal_result.findings@;
    let ghost c = result.notes@;
    let ghost d = hal_result.notes@;
    result.findings.append(&mut hal_result.findings);
    result.notes.append(&mut hal_result.notes);
    assert(text::views(a + b) =~= text::views(a) + text::views(b));
    assert(text::views(c + d) =~= text::views(c) + text::views(d));
    CheckResult { findings: order::sort_stable(result.findings), notes: order::sort_stable(result.notes) }
}

/// Checks the files of a project.
pub fn check_files(model: &Model, files: &[SourceFile]) -> (r: CheckResult)
    ensures
        r@ == project_outcome(model@, text::views(files@)),
{
    let table = fw_parse::build_project_macro_table(files);
    let ghost all = text::views(files@);
    let mut accesses: Vec<RegisterAccess> = Vec::new();
    let mut calls: Vec<HalCall> = Vec::new();
    let mut i: usize = 0;
    while i < files.len()
        invariant
            i <= files@.len(),
            all == text::views(files@),
            text::views(accesses@) == file_accesses(all.take(i as int), table@),
            text::views(calls@) == file_calls(all.take(i as int), table@),
        decreases files.len() - i,
    {
        assert(all.take(i + 1).drop_last() =~= all.take(i as int));
        assert(all.take(i + 1).last() == files@[i as int]@);
        let source = files[i].source.as_str();
        let path = files[i].path.as_str();
        let ghost a = accesses@;
        let ghost c = calls@;
        let mut own_accesses = fw_parse::extract_accesses_with_macros(source, path, &table);
        let ghost b = own_accesses@;
        accesses.append(&mut own_accesses);
        assert(text::views(a + b) =~= text::views(a) + text::views(b));
        let mut own_calls = fw_parse::extract_hal_calls_with_macros(source, path, &table);
        let ghost d = own_calls@;
        calls.append(&mut own_calls);
        assert(text::views(c + d) =~= text::views(c) + text::views(d));
        i += 1;
    }
    assert(all.take(all.len() as int) =~= all);
    check_all(model, &accesses, &calls)
}

// ── What comes of it ─────────────────────────────────────────────────────────

/// How the outcome of a check is reported.
pub struct ReportOptions {
    pub notes: bool,
    pub format: Format,
    pub fail_on: FailOn,
    pub color: bool,
    /// The findings that are known already.
    pub baseline: Option<Vec<BaselineEntry>>,
}

/// The view of an optional baseline.
pub open spec fn baseline_view(baseline: Option<Vec<BaselineEntry>>) -> Option<Seq<BaselineEntryView>> {
    match baseline {
        Some(entries) => Some(text::views(entries@)),
        None => None,
    }
}

/// What a check ends with.
#[derive(Debug)]
pub struct Conclusion {
    /// The report.
    pub text: String,
    /// How many findings the baseline suppressed.
    pub suppressed: usize,
    /// Whether the check failed.
    pub failed: bool,
}

/// The report could not be written as SARIF.
#[derive(Debug)]
pub enum ReportError {
    Sarif(serde_json::Error),
}

impl ReportError {
    pub fn message(&self) -> (r: &'static str)
        ensures
            r@ == "serializing SARIF"@,
    {
        match self {
            ReportError::Sarif(_) => "serializing SARIF",
        }
    }
}

/// The findings that are reported.
pub open spec fn reported(
    findings: Seq<FindingView>,
    baseline: Option<Seq<BaselineEntryView>>,
) -> Seq<FindingView> {
    match baseline {
        Some(entries) => baseline::new_findings(findings, entries),
        None => findings,
    }
}

/// Whether findings make a check fail.
pub open spec fn fails(findings: Seq<FindingView>, fail_on: FailOn) -> bool {
    match fail_on {
        FailOn::Never => false,
        FailOn::Warning => findings.len() > 0,
        FailOn::Error => exists|i: int| 0 <= i < findings.len() && (#[trigger] findings[i]).severity == Severity::Error,
    }
}

/// The report of findings and notes; `None` where it cannot be written.
pub open spec fn report_of(
    findings: Seq<FindingView>,
    notes: Seq<NotedView>,
    format: Format,
    with_notes: bool,
    color: bool,
    sources: Map<Seq<char>, Seq<Seq<char>>>,
) -> Option<Seq<char>> {
    match format {
        Format::Text => Some(
            if with_notes {
                report::report_text(findings, color, sources) + report::notes_report(notes, color, sources)
            } else {
                report::report_text(findings, color, sources)
            },
        ),
        Format::Sarif => sarif::pretty_json(sarif::sarif_document(findings, notes)),
    }
}

/// Whether findings make a check fail.
pub fn should_fail(findings: &[Finding], fail_on: FailOn) -> (r: bool)
    ensures
        r == fails(text::views(findings@), fail_on),
{
    match fail_on {
        FailOn::Never => false,
        FailOn::Warning => findings.len() > 0,
        FailOn::Error => {
            let ghost all = text::views(findings@);
            let mut i: usize = 0;
            while i < findings.len()
                invariant
                    fail_on == FailOn::Error,
                    i <= findings@.len(),
                    all == text::views(findings@),
                    forall|j: int| 0 <= j < i ==> (#[trigger] all[j]).severity != Severity::Error,
                decreases findings.len() - i,
            {
                assert(all[i as int] == findings@[i as int]@);
                if findings[i].severity == Severity::Error {
                    return true;
                }
                i += 1;
            }
            false
        },
    }
}

/// Whether `c` is what a check ends with: the report, the number of findings that the
/// baseline suppressed, and whether it failed. `None` where the report cannot be written.
pub open spec fn concluded(
    result: CheckResultView,
    options: ReportOptions,
    sources: Map<Seq<char>, Seq<Seq<char>>>,
    c: Option<Conclusion>,
) -> bool {
    let findings = reported(result.findings, baseline_view(options.baseline));
    let report = report_of(findings, result.notes, options.format, options.notes, options.color, sources);
    match c {
        Some(c) => {
            &&& report == Some(c.text@)
            &&& c.suppressed == result.findings.len() - findings.len()
            &&& c.failed == fails(findings, options.fail_on)
        },
        None => report is None,
    }
}

/// Reports the outcome of a check, without the findings of the baseline.
pub fn conclude(result: CheckResult, options: &ReportOptions, sources: &SourceCache) -> (r: Result<
    Conclusion,
    ReportError,
>)
    ensures
        match r {
            Ok(c) => concluded(result@, *options, sources@, Some(c)),
            Err(_) => concluded(result@, *options, sources@, None),
        },
{
    let before: usize = result.findings.len();
    let ghost all = result@.findings;
    let notes = result.notes;
    let findings = match &options.baseline {
        Some(entries) => baseline::suppress_baselined(result.findings, entries),
        None => result.findings,
    };
    proof {
        if let Some(entries) = &options.baseline {
            baseline::lemma_not_more(all, text::views(entries@));
        }
        assert(text::views(findings@).len() == findings@.len());
        assert(all.len() == before);
    }
    let suppressed: usize = before - findings.len();
    let text = match options.format {
        Format::Text => {
            let text = report::render_text(&findings, &notes, options.color, sources);
            if options.notes {
                text.concat(report::render_notes_text(&notes, options.color, sources).as_str())
            } else {
                text
            }
        },
        Format::Sarif => match sarif::json_to_text(&sarif::render_sarif(&findings, &notes)) {
            Ok(text) => text,
            Err(e) => {
                return Err(ReportError::Sarif(e));
            },
        },
    };
    let failed = should_fail(&findings, options.fail_on);
    Ok(Conclusion { text, suppressed, failed })
}

/// What a run comes to.
#[derive(Debug)]
pub enum Outcome {
    /// Write these entries to the baseline, say this, and succeed.
    WriteBaseline { entries: Vec<BaselineEntry>, message: String },
    /// Report.
    Report(Conclusion),
}

/// Decides what a run comes to. Where a baseline is to be written, it holds all the
/// findings, whatever another baseline suppresses, and nothing is reported.
pub fn finish(
    result: CheckResult,
    options: &ReportOptions,
    write_baseline: Option<&str>,
    sources: &SourceCache,
) -> (r: Result<Outcome, ReportError>)
    ensures
        match write_baseline {
            Some(path) => r matches Ok(Outcome::WriteBaseline { entries, message }) && text::views(entries@)
                == baseline::entries_of(result@.findings) && message@ == written_message(
                result@.findings.len(),
                path@,
            ),
            None => match r {
                Ok(Outcome::Report(c)) => concluded(result@, *options, sources@, Some(c)),
                Ok(Outcome::WriteBaseline { .. }) => false,
                Err(_) => concluded(result@, *options, sources@, None),
            },
        },
{
    match write_baseline {
        Some(path) => {
            let entries = baseline::baseline_of(&result.findings);
            assert(result@.findings.len() == result.findings@.len());
            let message = baseline_message(result.findings.len(), path);
            Ok(Outcome::WriteBaseline { entries, message })
        },
        None => match conclude(result, options, sources) {
            Ok(c) => Ok(Outcome::Report(c)),
            Err(e) => Err(e),
        },
    }
}

/// `1 finding`, `2 findings`.
pub open spec fn counted(n: nat, noun: Seq<char>) -> Seq<char> {
    text::decimal(n) + " "@ + noun + report::plural(n)
}

/// What is said once a baseline of `n` findings is written.
pub open spec fn written_message(n: nat, path: Seq<char>) -> Seq<char> {
    "silicon: wrote "@ + counted(n, "finding"@) + " to baseline "@ + path
}

/// What is said once a baseline of `n` findings is written.
pub fn baseline_message(n: usize, path: &str) -> (r: String)
    ensures
        r@ == written_message(n as nat, path@),
{
    "silicon: wrote ".to_owned().concat(counted_text(n, "finding").as_str()).concat(" to baseline ").concat(path)
}

/// What is said of `n` suppressed findings, if there are any.
pub fn suppressed_message(n: usize) -> (r: Option<String>)
    ensures
        text::option_view(r) == (if n > 0 {
            Some("silicon: suppressed "@ + counted(n as nat, "baseline finding"@))
        } else {
            None
        }),
{
    if n > 0 {
        Some("silicon: suppressed ".to_owned().concat(counted_text(n, "baseline finding").as_str()))
    } else {
        None
    }
}

fn counted_text(n: usize, noun: &str) -> (r: String)
    ensures
        r@ == counted(n as nat, noun@),
{
    let ending = if n == 1 {
        ""
    } else {
        "s"
    };
    text::decimal_text(n as u64).concat(" ").concat(noun).concat(ending)
}

// ── What holds of every check ────────────────────────────────────────────────

/// A report holds what the two checks found, sorted by file and line; what stands at
/// one place stays in the order in which it was found.
pub proof fn report_order(model: ModelView, accesses: Seq<RegisterAccessView>, calls: Seq<HalCallView>, k: FindingView)
    ensures
        ({
            let all = checker::accesses_outcome(model, accesses).then_also(hal_check::calls_outcome(model, calls));
            let out = merged_outcome(model, accesses, calls);
            &&& order::in_order::<Finding>(out.findings)
            &&& out.findings.to_multiset() == all.findings.to_multiset()
            &&& order::with_key::<Finding>(out.findings, k) == order::with_key::<Finding>(all.findings, k)
            &&& order::in_order::<Noted>(out.notes)
            &&& out.notes.to_multiset() == all.notes.to_multiset()
        }),
{
    let all = checker::accesses_outcome(model, accesses).then_also(hal_check::calls_outcome(model, calls));
    order::sorting_orders::<Finding>(all.findings);
    order::sorting_is_stable::<Finding>(all.findings, k);
    order::sorting_orders::<Noted>(all.notes);
}

/// A check that fails on errors fails on warnings too, none fails where nothing is to
/// fail, and none fails without findings.
pub proof fn thresholds_are_ordered(findings: Seq<FindingView>)
    ensures
        fails(findings, FailOn::Error) ==> fails(findings, FailOn::Warning),
        !fails(findings, FailOn::Never),
        findings.len() == 0 ==> !fails(findings, FailOn::Warning) && !fails(findings, FailOn::Error),
{
}

/// After a baseline was written, the same findings are all suppressed, and the check
/// does not fail.
pub proof fn baseline_then_check(findings: Seq<FindingView>, fail_on: FailOn)
    ensures
        reported(findings, Some(baseline::entries_of(findings))).len() == 0,
        !fails(reported(findings, Some(baseline::entries_of(findings))), fail_on),
{
    baseline::written_baseline_suppresses(findings);
}

/// Every finding that a project's check reports rests on a fact of the SVD and carries
/// the severity of its kind, whatever the baseline suppresses.
pub proof fn reported_findings_are_grounded(
    model: ModelView,
    accesses: Seq<RegisterAccessView>,
    calls: Seq<HalCallView>,
    baseline: Option<Seq<BaselineEntryView>>,
    f: FindingView,
)
    requires
        reported(merged_outcome(model, accesses, calls).findings, baseline).contains(f),
    ensures
        checker_laws::grounded(model, f.kind),
        f.severity == f.kind.severity(),
{
    broadcast use vstd::seq_lib::group_to_multiset_ensures;

    let a = checker::accesses_outcome(model, accesses);
    let b = hal_check::calls_outcome(model, calls);
    let sorted = merged_outcome(model, accesses, calls).findings;
    if let Some(entries) = baseline {
        baseline::only_new_findings_are_left(sorted, entries, f);
    }
    order::sorting_orders::<Finding>((a.findings + b.findings));
    assert(sorted.to_multiset().count(f) > 0);
    assert((a.findings + b.findings).contains(f));
    let i = (a.findings + b.findings).index_of(f);
    if i < a.findings.len() {
        assert(a.findings[i] == f);
        checker_laws::access_findings_are_grounded(model, accesses, i);
    } else {
        assert(b.findings[i - a.findings.len()] == f);
        checker_laws::call_findings_are_grounded(model, calls, i - a.findings.len());
    }
}

} // verus!
