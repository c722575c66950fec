//! Baselines: findings that are known, and not reported again.

use vstd::prelude::*;

use crate::finding::{Finding, FindingView};
use crate::text;

verus! {

broadcast use crate::text::group_views;

/// The version of the baseline file format.
pub const BASELINE_VERSION: u32 = 1;

/// A known finding: its place and its rule.
#[derive(Debug, PartialEq, Eq)]
pub struct BaselineEntry {
    pub file: String,
    pub line: usize,
    pub rule_id: String,
}

pub struct BaselineEntryView {
    pub file: Seq<char>,
    pub line: usize,
    pub rule_id: Seq<char>,
}

impl View for BaselineEntry {
    type V = BaselineEntryView;

    open spec fn view(&self) -> BaselineEntryView {
        BaselineEntryView { file: self.file@, line: self.line, rule_id: self.rule_id@ }
    }
}

/// The entry that stands for a finding.
pub open spec fn entry_of(f: FindingView) -> BaselineEntryView {
    BaselineEntryView { file: f.file, line: f.line, rule_id: f.kind.rule_id() }
}

pub open spec fn entries_of(findings: Seq<FindingView>) -> Seq<BaselineEntryView> {
    findings.map_values(|f: FindingView| entry_of(f))
}

/// The findings that no entry of the baseline stands for, in order.
pub open spec fn new_findings(
    findings: Seq<FindingView>,
    baseline: Seq<BaselineEntryView>,
) -> Seq<FindingView>
    decreases findings.len(),
{
    if findings.len() == 0 {
        findings
    } else if baseline.contains(entry_of(findings.last())) {
        new_findings(findings.drop_last(), baseline)
    } else {
        new_findings(findings.drop_last(), baseline).push(findings.last())
    }
}

/// The baseline that holds all the given findings.
pub fn baseline_of(findings: &[Finding]) -> (r: Vec<BaselineEntry>)
    ensures
        text::views(r@) == entries_of(text::views(findings@)),
{
    let ghost all = text::views(findings@);
    let mut out: Vec<BaselineEntry> = Vec::new();
    let mut i: usize = 0;
    while i < findings.len()
        invariant
            i <= findings@.len(),
            all == text::views(findings@),
            text::views(out@) =~= entries_of(all).take(i as int),
        decreases findings.len() - i,
    {
        let f = &findings[i];
        assert(all[i as int] == f@);
        out.push(BaselineEntry { file: f.file.clone(), line: f.line, rule_id: f.kind.rule_id().to_owned() });
        i += 1;
    }
    assert(text::views(out@) =~= entries_of(all));
    out
}

fn is_baselined(f: &Finding, baseline: &[BaselineEntry]) -> (r: bool)
    ensures
        r == text::views(baseline@).contains(entry_of(f@)),
{
    let ghost all = text::views(baseline@);
    let mut i: usize = 0;
    while i < baseline.len()
        invariant
            i <= baseline@.len(),
            all == text::views(baseline@),
            forall|j: int| 0 <= j < i ==> #[trigger] all[j] != entry_of(f@),
        decreases baseline.len() - i,
    {
        let b = &baseline[i];
        assert(all[i as int] == b@);
        if b.line == f.line && text::same_text(b.rule_id.as_str(), f.kind.rule_id()) && text::same_text(
            b.file.as_str(),
            f.file.as_str(),
        ) {
            return true;
        }
        i += 1;
    }
    false
}

/// The findings that the baseline does not hold.
pub fn suppress_baselined(findings: Vec<Finding>, baseline: &[BaselineEntry]) -> (r: Vec<Finding>)
    ensures
        text::views(r@) == new_findings(text::views(findings@), text::views(baseline@)),
{
    let ghost all = new_findings(text::views(findings@), text::views(baseline@));
    let mut pending = findings;
    let mut kept: Vec<Finding> = Vec::new();
    assert(text::views(kept@).reverse() =~= Seq::<FindingView>::empty());
    while pending.len() > 0
        invariant
            all =~= new_findings(text::views(pending@), text::views(baseline@)) + text::views(kept@).reverse(),
        decreases pending@.len(),
    {
        let ghost before = text::views(pending@);
        let ghost kept_before = text::views(kept@);
        if let Some(f) = pending.pop() {
            assert(text::views(pending@) =~= before.drop_last());
            if !is_baselined(&f, baseline) {
                kept.push(f);
                assert(text::views(kept@).reverse() =~= seq![f@] + kept_before.reverse());
            }
        }
    }
    let mut out: Vec<Finding> = Vec::new();
    assert(all =~= text::views(out@) + text::views(kept@).reverse());
    while kept.len() > 0
        invariant
            all =~= text::views(out@) + text::views(kept@).reverse(),
        decreases kept@.len(),
    {
        let ghost before = text::views(kept@);
        if let Some(f) = kept.pop() {
            assert(text::views(kept@) =~= before.drop_last());
            assert(before.reverse() =~= seq![f@] + before.drop_last().reverse());
            out.push(f);
        }
    }
    out
}

/// Suppressing adds no finding.
pub proof fn lemma_not_more(findings: Seq<FindingView>, baseline: Seq<BaselineEntryView>)
    ensures
        new_findings(findings, baseline).len() <= findings.len(),
    decreases findings.len(),
{
    if findings.len() > 0 {
        lemma_not_more(findings.drop_last(), baseline);
    }
}

// ── What holds of every baseline ─────────────────────────────────────────────

/// What is left is new, and what is new is left.
pub proof fn only_new_findings_are_left(
    findings: Seq<FindingView>,
    baseline: Seq<BaselineEntryView>,
    f: FindingView,
)
    ensures
        new_findings(findings, baseline).contains(f) <==> findings.contains(f) && !baseline.contains(entry_of(f)),
    decreases findings.len(),
{
    if findings.len() > 0 {
        let rest = findings.drop_last();
        let last = findings.last();
        only_new_findings_are_left(rest, baseline, f);
        let before = new_findings(rest, baseline);
        let all = new_findings(findings, baseline);
        if rest.contains(f) {
            let i = rest.index_of(f);
            assert(findings[i] == f);
        }
        if findings.contains(f) && f != last {
            let i = findings.index_of(f);
            assert(rest[i] == f);
        }
        if f == last {
            assert(findings[findings.len() - 1] == f);
        }
        if !baseline.contains(entry_of(last)) {
            if before.contains(f) {
                let i = before.index_of(f);
                assert(all[i] == f);
            }
            if all.contains(f) && f != last {
                let i = all.index_of(f);
                assert(before[i] == f);
            }
            assert(all[before.len() as int] == last);
        }
    }
}

/// A baseline of all the findings leaves none of them.
pub proof fn full_baseline_leaves_nothing(findings: Seq<FindingView>, baseline: Seq<BaselineEntryView>)
    requires
        forall|i: int| 0 <= i < findings.len() ==> baseline.contains(entry_of(#[trigger] findings[i])),
    ensures
        new_findings(findings, baseline).len() == 0,
    decreases findings.len(),
{
    if findings.len() > 0 {
        let rest = findings.drop_last();
        assert forall|i: int| 0 <= i < rest.len() implies baseline.contains(entry_of(#[trigger] rest[i])) by {
            assert(rest[i] == findings[i]);
        }
        assert(findings[findings.len() - 1] == findings.last());
        full_baseline_leaves_nothing(rest, baseline);
    }
}

/// A baseline that was written of some findings suppresses all of them.
pub proof fn written_baseline_suppresses(findings: Seq<FindingView>)
    ensures
        new_findings(findings, entries_of(findings)).len() == 0,
{
    assert forall|i: int| 0 <= i < findings.len() implies entries_of(findings).contains(
        entry_of(#[trigger] findings[i]),
    ) by {
        assert(entries_of(findings)[i] == entry_of(findings[i]));
    }
    full_baseline_leaves_nothing(findings, entries_of(findings));
}

/// An empty baseline suppresses nothing.
pub proof fn empty_baseline_suppresses_nothing(findings: Seq<FindingView>)
    ensures
        new_findings(findings, Seq::empty()) == findings,
    decreases findings.len(),
{
    if findings.len() > 0 {
        empty_baseline_suppresses_nothing(findings.drop_last());
        assert(findings.drop_last().push(findings.last()) =~= findings);
    }
}

/// Suppressing twice is suppressing once.
pub proof fn suppressing_is_idempotent(findings: Seq<FindingView>, baseline: Seq<BaselineEntryView>)
    ensures
        new_findings(new_findings(findings, baseline), baseline) == new_findings(findings, baseline),
    decreases findings.len(),
{
    if findings.len() > 0 {
        let before = new_findings(findings.drop_last(), baseline);
        suppressing_is_idempotent(findings.drop_last(), baseline);
        if !baseline.contains(entry_of(findings.last())) {
            assert(before.push(findings.last()).drop_last() =~= before);
        }
    }
}

} // verus!
