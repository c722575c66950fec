//! What a reader sees: every report, listing and explanation shows what it is about.

use vstd::prelude::*;

use crate::bits;
use crate::explain;
use crate::explain::ExplanationView;
use crate::finding::{FindingKindView, FindingView, IndexEvidenceView, NoteView, NotedView, Severity};
use crate::listing;
use crate::messages;
use crate::order;
use crate::project;
use crate::report;
use crate::sarif;
use crate::sarif::JsonView;
use crate::svd::Access;
use crate::svd_model::{EnumValueView, FieldModel, FieldView, ModelView, PeripheralModel, PeripheralView, RegisterModel, RegisterView};
use crate::text;

verus! {

// ── Texts in texts ───────────────────────────────────────────────────────────

/// Whether a text stands in another one.
pub open spec fn shown(part: Seq<char>, whole: Seq<char>) -> bool {
    exists|i: int| 0 <= i && i + part.len() <= whole.len() && #[trigger] whole.subrange(i, i + part.len()) == part
}

pub broadcast proof fn lemma_shown_left(part: Seq<char>, a: Seq<char>, b: Seq<char>)
    requires
        shown(part, a),
    ensures
        #[trigger] shown(part, a + b),
{
    let i = choose|i: int| 0 <= i && i + part.len() <= a.len() && #[trigger] a.subrange(i, i + part.len()) == part;
    assert((a + b).subrange(i, i + part.len()) =~= part);
}

pub broadcast proof fn lemma_shown_right(part: Seq<char>, a: Seq<char>, b: Seq<char>)
    requires
        shown(part, b),
    ensures
        #[trigger] shown(part, a + b),
{
    let i = choose|i: int| 0 <= i && i + part.len() <= b.len() && #[trigger] b.subrange(i, i + part.len()) == part;
    assert((a + b).subrange(a.len() + i, a.len() + i + part.len()) =~= part);
}

pub broadcast proof fn lemma_shown_self(part: Seq<char>)
    ensures
        #[trigger] shown(part, part),
{
    assert(part.subrange(0, (0 + part.len()) as int) =~= part);
}

broadcast group group_shown {
    lemma_shown_left,
    lemma_shown_right,
    lemma_shown_self,
}

/// What stands in a part of a text stands in the text.
pub proof fn lemma_shown_through(part: Seq<char>, middle: Seq<char>, whole: Seq<char>)
    requires
        shown(part, middle),
        shown(middle, whole),
    ensures
        shown(part, whole),
{
    let i = choose|i: int|
        0 <= i && i + part.len() <= middle.len() && #[trigger] middle.subrange(i, i + part.len()) == part;
    let j = choose|j: int|
        0 <= j && j + middle.len() <= whole.len() && #[trigger] whole.subrange(j, j + middle.len()) == middle;
    assert(whole.subrange(j + i, j + i + part.len()) =~= part);
}

/// Each part of a joined text stands in it.
proof fn lemma_shown_joined(parts: Seq<Seq<char>>, sep: Seq<char>, i: int)
    requires
        0 <= i < parts.len(),
    ensures
        shown(parts[i], text::join(parts, sep)),
    decreases parts.len(),
{
    broadcast use group_shown;

    if parts.len() > 1 {
        if i < parts.len() - 1 {
            lemma_shown_joined(parts.drop_last(), sep, i);
        } else {
            assert(parts[i] == parts.last());
        }
    }
}

// ── Findings and notes in words ──────────────────────────────────────────────

/// Whether a text names what a finding is about, with its numbers.
pub open spec fn tells(s: Seq<char>, kind: FindingKindView) -> bool {
    match kind {
        FindingKindView::NonexistentRegister { peripheral, register } => shown(peripheral + "."@ + register, s),
        FindingKindView::AddressNotARegister { peripheral, address } => shown(peripheral, s) && shown(
            text::hex_padded(address as nat, 8),
            s,
        ),
        FindingKindView::ValueExceedsRegisterWidth { peripheral, register, value, size_bits } => shown(
            peripheral + "."@ + register,
            s,
        ) && shown(text::hex(value as nat), s) && shown(text::decimal(size_bits as nat), s),
        FindingKindView::ValueSetsUndefinedBits { peripheral, register, value, .. } => shown(
            peripheral + "."@ + register,
            s,
        ) && shown(text::hex(value as nat), s),
        FindingKindView::FieldValueNotInEnum { peripheral, register, field, value, .. } => shown(
            peripheral + "."@ + register + "."@ + field,
            s,
        ) && shown(text::decimal(value as nat), s),
        FindingKindView::WriteToReadOnlyRegister { peripheral, register } => shown(peripheral + "."@ + register, s),
        FindingKindView::WriteToReadOnlyField { peripheral, register, field } => shown(
            peripheral + "."@ + register + "."@ + field,
            s,
        ),
        FindingKindView::HalCallPinOutOfRange { function, pin } => shown(function, s) && shown(
            text::decimal(pin as nat),
            s,
        ),
        FindingKindView::HalCallFuncselNotInEnum { pin, func, .. } => shown(text::decimal(pin as nat), s) && shown(
            text::decimal(func as nat),
            s,
        ),
        FindingKindView::HalCallIndexOutOfRange { function, arg_index, index, .. } => shown(function, s) && shown(
            text::decimal(arg_index as nat),
            s,
        ) && shown(text::decimal(index as nat), s),
        FindingKindView::HalCallInstanceNotInSvd { function, instance, peripheral } => shown(function, s) && shown(
            instance,
            s,
        ) && shown(peripheral, s),
    }
}

/// The headline and the explanation of a finding name what it is about, with its numbers.
#[verifier::rlimit(60)]
#[verifier::spinoff_prover]
pub proof fn findings_are_told(kind: FindingKindView)
    ensures
        tells(kind.title(), kind),
        tells(kind.message(), kind),
{
    broadcast use group_shown;

}

/// The allowed values of an enumeration are all told, each with its name and number.
pub proof fn allowed_values_are_told(kind: FindingKindView, allowed: Seq<EnumValueView>, i: int)
    requires
        0 <= i < allowed.len(),
        (kind matches FindingKindView::FieldValueNotInEnum { allowed: a, .. } && a == allowed) || (
        kind matches FindingKindView::HalCallFuncselNotInEnum { allowed: a, .. } && a == allowed),
    ensures
        shown(allowed[i].name + "="@ + text::decimal(allowed[i].value as nat), kind.message()),
{
    broadcast use group_shown;

    let entries = messages::enum_entries(allowed);
    lemma_shown_joined(entries, ", "@, i);
    assert(entries[i] == allowed[i].name + "="@ + text::decimal(allowed[i].value as nat));
    assert(shown(entries[i], messages::enum_line(allowed)));
}

/// The evidence for a finding names the SVD facts behind it.
#[verifier::rlimit(60)]
#[verifier::spinoff_prover]
pub proof fn evidence_is_told(kind: FindingKindView)
    ensures
        match kind {
            FindingKindView::ValueExceedsRegisterWidth { peripheral, register, size_bits, .. } => kind.citation()
                matches Some(s) && shown(peripheral + "."@ + register, s) && shown(text::decimal(size_bits as nat), s)
                && exists|max: u64| #[trigger] shown(text::hex(max as nat), s) && is_highest(max, size_bits),
            FindingKindView::ValueSetsUndefinedBits { peripheral, register, defined_mask, .. } => kind.citation()
                matches Some(s) && shown(peripheral + "."@ + register, s) && shown(
                text::hex_padded(defined_mask as nat, 8),
                s,
            ),
            FindingKindView::FieldValueNotInEnum { peripheral, register, field, allowed, .. } => kind.citation()
                matches Some(s) && shown(peripheral + "."@ + register + "."@ + field, s) && shown(
                messages::enum_block(allowed),
                s,
            ),
            FindingKindView::WriteToReadOnlyRegister { peripheral, register } => kind.citation() matches Some(s)
                && shown(peripheral + "."@ + register, s) && shown("read-only"@, s),
            FindingKindView::WriteToReadOnlyField { peripheral, register, field } => kind.citation() matches Some(s)
                && shown(peripheral + "."@ + register + "."@ + field, s) && shown("read-only"@, s),
            FindingKindView::HalCallFuncselNotInEnum { pin, allowed, .. } => kind.citation() matches Some(s) && shown(
                text::decimal(pin as nat),
                s,
            ) && shown(messages::enum_block(allowed), s),
            FindingKindView::HalCallIndexOutOfRange { evidence, .. } => kind.citation() matches Some(s)
                && match evidence {
                IndexEvidenceView::NoSuchRegister { peripheral, register } => shown(peripheral + "."@ + register, s),
                IndexEvidenceView::FieldTooNarrow { peripheral, register, field, bit_width } => shown(
                    peripheral + "."@ + register + "."@ + field,
                    s,
                ) && shown(text::decimal(bit_width as nat), s) && exists|max: u64| #[trigger]
                    shown(text::decimal(max as nat), s) && is_highest(max, bit_width),
                IndexEvidenceView::NoSuchPwmChannel => true,
            },
            _ => kind.citation() is None,
        },
{
    broadcast use group_shown;

    let access = " — access = read-only"@;
    reveal_strlit(" — access = read-only");
    reveal_strlit("read-only");
    assert(access.len() == 21 && "read-only"@.len() == 9);
    assert(access.subrange(12, 21) =~= "read-only"@);
    assert(access.subrange(12, (12 + "read-only"@.len()) as int) == "read-only"@);
    assert(shown("read-only"@, access));
    match kind {
        FindingKindView::ValueExceedsRegisterWidth { size_bits, .. } => {
            lemma_highest(size_bits);
            let max = bits::low_mask(size_bits);
            assert(shown(text::hex(max as nat), kind.citation()->0));
        },
        FindingKindView::HalCallIndexOutOfRange {
            evidence: IndexEvidenceView::FieldTooNarrow { bit_width, .. },
            ..
        } => {
            lemma_highest(bit_width);
            let max = bits::low_mask(bit_width);
            assert(shown(text::decimal(max as nat), kind.citation()->0));
        },
        _ => {},
    }
}

/// Whether `max` is the highest number of so many bits: it has each of them, and no other.
pub open spec fn is_highest(max: u64, width: u32) -> bool {
    forall|i: u32| i < 64 ==> (#[trigger] bits::bit(max, i) <==> i < width)
}

proof fn lemma_highest(width: u32)
    ensures
        is_highest(bits::low_mask(width), width),
{
    let max = bits::low_mask(width);
    assert(max << 0u32 == max) by (bit_vector);
    assert forall|i: u32| i < 64 implies (#[trigger] bits::bit(max, i) <==> i < width) by {
        bits::range_mask_bits(0, width, i);
    }
}

/// A note names what it is about.
pub proof fn notes_are_told(note: NoteView)
    ensures
        match note {
            NoteView::UnresolvedAccess => true,
            NoteView::UnknownPeripheralGuess { peripheral } => shown(peripheral, note.message()),
            NoteView::PeripheralOnlyKnown { peripheral } => shown(peripheral, note.message()),
            NoteView::AddressNotMapped { address } => shown(text::hex_padded(address as nat, 8), note.message()),
            NoteView::FieldUnverifiableNoEnum { peripheral, register, field } => shown(
                peripheral + "."@ + register + "."@ + field,
                note.message(),
            ),
            NoteView::RegisterHasNoFields { peripheral, register } => shown(
                peripheral + "."@ + register,
                note.message(),
            ),
            NoteView::ValueNotDeterminableForOp { peripheral, register } => shown(
                peripheral + "."@ + register,
                note.message(),
            ),
            NoteView::ValueNotStaticallyKnown { peripheral, register } => shown(
                peripheral + "."@ + register,
                note.message(),
            ),
            NoteView::HalCallArgUnknown { function, arg_index } => shown(function, note.message()) && shown(
                text::decimal(arg_index as nat),
                note.message(),
            ),
        },
{
    broadcast use group_shown;

}

// ── The text report ──────────────────────────────────────────────────────────

/// What a finding is headed with: its severity, its rule and its headline, and where it is.
#[verifier::rlimit(60)]
#[verifier::spinoff_prover]
pub proof fn findings_are_headed(
    findings: Seq<FindingView>,
    color: bool,
    sources: Map<Seq<char>, Seq<Seq<char>>>,
    i: int,
)
    requires
        0 <= i < findings.len(),
    ensures
        ({
            let s = report::report_text(findings, color, sources);
            let f = findings[i];
            &&& shown(f.kind.rule_id(), s)
            &&& shown(f.kind.title(), s)
            &&& shown(f.file, s)
            &&& shown(text::decimal(f.line as nat), s)
            &&& f.severity == Severity::Error ==> shown("error"@, s)
            &&& f.severity == Severity::Warning ==> shown("warning"@, s)
        }),
{
    broadcast use group_shown;

    let c = report::palette(color);
    let f = findings[i];
    lemma_finding_in_report(findings, color, sources, i);
    let t = report::finding_text(f, sources, c);
    let s = report::report_text(findings, color, sources);
    assert(shown(f.kind.rule_id(), report::heading(f, c)));
    assert(shown(f.kind.title(), report::heading(f, c)));
    assert(shown(report::severity_name(f.severity), report::heading(f, c)));
    assert(shown(f.file, report::location(f, c)));
    assert(shown(text::decimal(f.line as nat), report::location(f, c)));
    assert(shown(report::heading(f, c), t));
    assert(shown(report::location(f, c), t));
    lemma_shown_through(f.kind.rule_id(), report::heading(f, c), t);
    lemma_shown_through(f.kind.title(), report::heading(f, c), t);
    lemma_shown_through(report::severity_name(f.severity), report::heading(f, c), t);
    lemma_shown_through(f.file, report::location(f, c), t);
    lemma_shown_through(text::decimal(f.line as nat), report::location(f, c), t);
    lemma_shown_through(f.kind.rule_id(), t, s);
    lemma_shown_through(f.kind.title(), t, s);
    lemma_shown_through(report::severity_name(f.severity), t, s);
    lemma_shown_through(f.file, t, s);
    lemma_shown_through(text::decimal(f.line as nat), t, s);
}

proof fn lemma_finding_in_report(
    findings: Seq<FindingView>,
    color: bool,
    sources: Map<Seq<char>, Seq<Seq<char>>>,
    i: int,
)
    requires
        0 <= i < findings.len(),
    ensures
        shown(
            report::finding_text(findings[i], sources, report::palette(color)),
            report::report_text(findings, color, sources),
        ),
{
    broadcast use group_shown;

    let c = report::palette(color);
    lemma_finding_among(findings, sources, c, i);
}

proof fn lemma_finding_among(
    findings: Seq<FindingView>,
    sources: Map<Seq<char>, Seq<Seq<char>>>,
    c: report::PaletteView,
    i: int,
)
    requires
        0 <= i < findings.len(),
    ensures
        shown(report::finding_text(findings[i], sources, c), report::findings_text(findings, sources, c)),
    decreases findings.len(),
{
    broadcast use group_shown;

    if findings.len() > 1 {
        if i < findings.len() - 1 {
            lemma_finding_among(findings.drop_last(), sources, c, i);
        } else {
            assert(findings[i] == findings.last());
        }
    }
}

/// A finding quotes the line of the source that it is about, or, where that is not known,
/// the expression; without colour as it stands.
#[verifier::rlimit(60)]
#[verifier::spinoff_prover]
pub proof fn findings_quote_their_source(
    findings: Seq<FindingView>,
    sources: Map<Seq<char>, Seq<Seq<char>>>,
    i: int,
)
    requires
        0 <= i < findings.len(),
    ensures
        ({
            let s = report::report_text(findings, false, sources);
            let f = findings[i];
            let known = f.line > 0 && sources.contains_key(f.file) && f.line <= sources[f.file].len();
            &&& known ==> shown(sources[f.file][f.line - 1], s)
            &&& f.line > 0 && !known && f.raw_op.len() == 0 ==> shown(f.raw_lhs, s)
            &&& f.line > 0 && !known && f.raw_op.len() > 0 ==> shown(f.raw_lhs + " "@ + f.raw_op + " "@ + f.raw_rhs, s)
        }),
{
    broadcast use group_shown;

    let c = report::palette(false);
    let f = findings[i];
    let raw = report::quoted_line(f, sources);
    lemma_finding_in_report(findings, false, sources, i);
    let t = report::finding_text(f, sources, c);
    let s = report::report_text(findings, false, sources);
    reveal_strlit("");
    text::lemma_find_within(raw, text::trim_start(report::expression(f)));
    let shining = report::highlighted(raw, report::expression(f), c.sev_fg(f.severity), c.reset);
    assert(shining =~= raw);
    assert(shown(raw, report::source_row(f, raw, c)));
    assert(shown(report::source_row(f, raw, c), t));
    lemma_shown_through(raw, report::source_row(f, raw, c), t);
    lemma_shown_through(raw, t, s);
    if report::source_line(sources, f.file, f.line) is None {
        assert(shown(report::expression(f), raw));
        lemma_shown_through(report::expression(f), raw, s);
    }
}

/// The carets stand under the expression: as far in as its first occurrence in the line is,
/// and as many as it has bytes.
pub proof fn carets_point_to_the_expression(raw: Seq<char>, expr: Seq<char>, before: Seq<char>, after: Seq<char>)
    requires
        raw == before + expr + after,
        expr.len() > 0,
        !text::is_space(expr[0]),
        forall|j: int| 0 <= j < before.len() ==> #[trigger] raw.subrange(j, j + expr.len()) != expr,
    ensures
        report::caret_column(raw, expr) == text::byte_len(before),
        text::byte_len(expr) >= 1 ==> report::caret_count(raw, expr) == text::byte_len(expr),
{
    assert(text::trim_start(expr) == expr);
    crate::text_laws::the_first_occurrence_is_found(raw, expr);
    assert(raw.subrange(before.len() as int, (before.len() + expr.len()) as int) =~= expr);
    if let Some(i) = text::find(raw, expr) {
        assert(i == before.len()) by {
            if i < before.len() {
                assert(raw.subrange(i as int, (i + expr.len()) as int) == expr);
            }
            if i > before.len() {
                assert(raw.subrange(before.len() as int, (before.len() + expr.len()) as int) != expr);
            }
        }
        assert(raw.take(i as int) =~= before);
    } else {
        assert(raw.subrange(before.len() as int, (before.len() + expr.len()) as int) != expr);
    }
    text::lemma_byte_len_concat(before, expr);
    text::lemma_byte_len_concat(before + expr, after);
}

/// What follows a noun that goes with the number `n`: an `s`, unless there is one, and a space.
pub open spec fn ending(n: nat) -> Seq<char> {
    if n == 1 {
        seq![' ']
    } else {
        seq!['s', ' ']
    }
}

/// A counted noun has the number before it, and an `s` unless there is one.
pub proof fn nouns_are_counted(n: nat, noun: Seq<char>)
    ensures
        project::counted(n, noun) == text::decimal(n) + seq![' '] + noun + (if n == 1 {
            Seq::empty()
        } else {
            seq!['s']
        }),
{
    reveal_strlit("");
    reveal_strlit("s");
    reveal_strlit(" ");
    assert(project::counted(n, noun) =~= text::decimal(n) + seq![' '] + noun + (if n == 1 {
        Seq::empty()
    } else {
        seq!['s']
    }));
}

/// Whether the source line is its text behind `a`, and the line with the carets, behind `b`,
/// which is as long, has blanks as far as the expression is in, and then the carets.
pub open spec fn laid_out(f: FindingView, raw: Seq<char>, a: Seq<char>, b: Seq<char>) -> bool {
    let c = report::palette(false);
    let expr = report::expression(f);
    let carets = Seq::new(report::caret_count(raw, expr), |i: int| caret_mark(f.severity));
    &&& a.len() == b.len()
    &&& report::source_row(f, raw, c) == a + raw + seq!['\n']
    &&& report::caret_row(f, raw, c) == b + Seq::new(report::caret_column(raw, expr), |i: int| ' ') + carets + seq!['\n']
}

pub open spec fn caret_mark(s: Severity) -> char {
    match s {
        Severity::Error => '^',
        Severity::Warning => '~',
    }
}

/// Without colour the line with the carets is as long before them as the source line is
/// before its text, so that they stand under the expression: blanks as far as the
/// expression is in, and then the carets, of one kind for errors and another for warnings.
#[verifier::rlimit(60)]
#[verifier::spinoff_prover]
pub proof fn carets_stand_under_the_source(f: FindingView, sources: Map<Seq<char>, Seq<Seq<char>>>, raw: Seq<char>)
    requires
        raw == report::quoted_line(f, sources),
    ensures
        ({
            let c = report::palette(false);
            &&& shown(report::source_row(f, raw, c) + report::caret_row(f, raw, c), report::finding_text(f, sources, c))
            &&& exists|a: Seq<char>, b: Seq<char>| #[trigger] laid_out(f, raw, a, b)
        }),
{
    broadcast use group_shown;

    let c = report::palette(false);
    let expr = report::expression(f);
    let mark = report::severity_caret(f.severity);
    reveal_strlit("");
    reveal_strlit("\n");
    text::lemma_find_within(raw, text::trim_start(expr));
    assert(report::highlighted(raw, expr, c.sev_fg(f.severity), c.reset) =~= raw);
    let number = text::pad_left(text::decimal(f.line as nat), report::number_width(f.line), ' ');
    crate::text_laws::padding_keeps_the_text(text::decimal(f.line as nat), report::number_width(f.line), ' ');
    let a = "  "@ + "│"@ + "  "@ + number + "  "@ + "│"@ + "  "@;
    let blank = text::fill(' ', report::number_width(f.line));
    let b = "  "@ + "│"@ + "  "@ + blank + "  "@ + "│"@ + "  "@;
    assert(a.len() == b.len());
    let blanks = Seq::new(report::caret_column(raw, expr), |i: int| ' ');
    let carets = Seq::new(report::caret_count(raw, expr), |i: int| caret_mark(f.severity));
    assert(text::fill(mark, report::caret_count(raw, expr)) =~= carets);
    assert(text::fill(' ', report::caret_column(raw, expr)) =~= blanks);
    assert(report::source_row(f, raw, c) =~= a + raw + seq!['\n']);
    assert(report::caret_row(f, raw, c) =~= b + blanks + carets + seq!['\n']);
    assert(laid_out(f, raw, a, b));
    let rows = report::source_row(f, raw, c) + report::caret_row(f, raw, c);
    let before = report::heading(f, c) + report::location(f, c) + report::bar(c);
    let after = report::closing(f.kind.citation(), c);
    assert(report::finding_text(f, sources, c) =~= before + rows + after);
    assert(shown(rows, before + rows + after));
}

/// The summary counts the errors and the warnings that there are.
#[verifier::rlimit(60)]
#[verifier::spinoff_prover]
pub proof fn summaries_count(findings: Seq<FindingView>, color: bool, sources: Map<Seq<char>, Seq<Seq<char>>>)
    ensures
        ({
            let s = report::report_text(findings, color, sources);
            let errors = findings.filter(|f: FindingView| f.severity == Severity::Error).len();
            let warnings = findings.filter(|f: FindingView| f.severity == Severity::Warning).len();
            &&& report::count_of(findings, Severity::Error) == errors
            &&& report::count_of(findings, Severity::Warning) == warnings
            &&& errors > 0 ==> shown(" ✗ "@ + text::decimal(errors) + " error"@ + ending(errors), s)
            &&& warnings > 0 ==> shown(" ⚠ "@ + text::decimal(warnings) + " warning"@ + ending(warnings), s)
            &&& errors + warnings == 0 ==> shown(" ✓ no findings "@, s)
        }),
{
    broadcast use group_shown;

    lemma_counted(findings);
    let c = report::palette(color);
    let errors = report::count_of(findings, Severity::Error);
    let warnings = report::count_of(findings, Severity::Warning);
    let e = " ✗ "@ + text::decimal(errors) + " error"@ + ending(errors);
    let w = " ⚠ "@ + text::decimal(warnings) + " warning"@ + ending(warnings);
    reveal_strlit("");
    reveal_strlit("s");
    reveal_strlit(" ");
    assert(report::error_badge(errors, c) =~= c.rev_red + e + c.reset);
    assert(report::warning_badge(warnings, c) =~= c.rev_yellow + w + c.reset);
    assert(shown(e, report::error_badge(errors, c)));
    assert(shown(w, report::warning_badge(warnings, c)));
    let sum = report::summary(findings, c);
    if errors > 0 {
        assert(shown(report::error_badge(errors, c), sum));
        lemma_shown_through(e, report::error_badge(errors, c), sum);
    }
    if warnings > 0 {
        assert(shown(report::warning_badge(warnings, c), sum));
        lemma_shown_through(w, report::warning_badge(warnings, c), sum);
    }
}

proof fn lemma_counted(findings: Seq<FindingView>)
    ensures
        report::count_of(findings, Severity::Error) == findings.filter(
            |f: FindingView| f.severity == Severity::Error,
        ).len(),
        report::count_of(findings, Severity::Warning) == findings.filter(
            |f: FindingView| f.severity == Severity::Warning,
        ).len(),
    decreases findings.len(),
{
    reveal(Seq::filter);
    if findings.len() > 0 {
        lemma_counted(findings.drop_last());
    }
}

/// The report of the notes shows each of them, with its file and line.
#[verifier::rlimit(60)]
#[verifier::spinoff_prover]
pub proof fn notes_are_shown(
    notes: Seq<NotedView>,
    color: bool,
    sources: Map<Seq<char>, Seq<Seq<char>>>,
    i: int,
)
    requires
        0 <= i < notes.len(),
    ensures
        ({
            let s = report::notes_report(notes, color, sources);
            &&& shown(notes[i].note.message(), s)
            &&& shown(notes[i].file + ":"@ + text::decimal(notes[i].line as nat), s)
        }),
{
    broadcast use group_shown;

    let c = report::palette(color);
    let n = notes[i];
    let t = report::note_text(n, sources, c);
    lemma_note_among(notes, sources, c, i);
    let s = report::notes_report(notes, color, sources);
    assert(shown(report::note_texts(notes, sources, c), s));
    lemma_shown_through(t, report::note_texts(notes, sources, c), s);
    let place = n.file + ":"@ + text::decimal(n.line as nat);
    let head = "  "@ + c.bold_cyan + "·"@ + c.reset + " "@ + c.dim + n.note.message() + c.reset + "\n    "@ + c.dim;
    assert(shown(n.note.message(), head));
    assert(shown(place, head + place + c.reset + "\n"@));
    assert(head + place + c.reset + "\n"@ =~= head + n.file + ":"@ + text::decimal(n.line as nat) + c.reset + "\n"@);
    assert(shown(place, t));
    assert(shown(n.note.message(), t));
    lemma_shown_through(place, t, s);
    lemma_shown_through(n.note.message(), t, s);
}

proof fn lemma_note_among(
    notes: Seq<NotedView>,
    sources: Map<Seq<char>, Seq<Seq<char>>>,
    c: report::PaletteView,
    i: int,
)
    requires
        0 <= i < notes.len(),
    ensures
        shown(report::note_text(notes[i], sources, c), report::note_texts(notes, sources, c)),
    decreases notes.len(),
{
    broadcast use group_shown;

    if i < notes.len() - 1 {
        lemma_note_among(notes.drop_last(), sources, c, i);
    } else {
        assert(notes[i] == notes.last());
    }
}

// ── Listings ─────────────────────────────────────────────────────────────────

/// What is sorted is the same, neither more nor less.
proof fn lemma_still_there<T: order::SortKey>(s: Seq<T::V>, x: T::V)
    requires
        s.contains(x),
    ensures
        order::sorted::<T>(s).contains(x),
{
    broadcast use vstd::seq_lib::group_to_multiset_ensures;

    order::sorting_orders::<T>(s);
    assert(s.to_multiset().count(x) > 0);
    assert(order::sorted::<T>(s).to_multiset().count(x) > 0);
}

proof fn lemma_peripheral_row_among(peripherals: Seq<PeripheralView>, color: bool, i: int)
    requires
        0 <= i < peripherals.len(),
    ensures
        shown(listing::peripheral_row(peripherals[i], color), listing::peripheral_rows(peripherals, color)),
    decreases peripherals.len(),
{
    broadcast use group_shown;

    if i < peripherals.len() - 1 {
        lemma_peripheral_row_among(peripherals.drop_last(), color, i);
    } else {
        assert(peripherals[i] == peripherals.last());
    }
}

/// The listing of the peripherals shows each of them in a row, with its name, its base
/// address and the number of its registers.
#[verifier::rlimit(60)]
#[verifier::spinoff_prover]
pub proof fn every_peripheral_is_listed(model: ModelView, color: bool, i: int)
    requires
        0 <= i < model.peripherals.len(),
    ensures
        ({
            let p = model.peripherals[i];
            let row = listing::peripheral_row(p, color);
            &&& shown(row, listing::peripherals_listing(model, color))
            &&& shown(p.name, row)
            &&& shown("0x"@ + text::hex_padded(p.base_address as nat, 8), row)
            &&& shown(text::decimal(p.registers.len()), row)
        }),
{
    broadcast use group_shown;

    let p = model.peripherals[i];
    let all = listing::by_name(model.peripherals);
    assert(model.peripherals.contains(p));
    lemma_still_there::<&PeripheralModel>(model.peripherals, p);
    let k = all.index_of(p);
    assert(all[k] == p);
    lemma_peripheral_row_among(all, color, k);
    let row = listing::peripheral_row(p, color);
    let rows = listing::peripheral_rows(all, color);
    assert(shown(rows, listing::peripherals_listing(model, color)));
    lemma_shown_through(row, rows, listing::peripherals_listing(model, color));
    crate::text_laws::padding_keeps_the_text(p.name, 22, ' ');
    lemma_prefix_shown(p.name, text::pad_right(p.name, 22));
    assert(shown(text::pad_right(p.name, 22), row));
    lemma_shown_through(p.name, text::pad_right(p.name, 22), row);
    let number = "0x"@ + text::hex_padded(p.base_address as nat, 8);
    let count = text::decimal(p.registers.len());
    reveal_strlit("  0x");
    reveal_strlit("  ");
    reveal_strlit("0x");
    assert("  0x"@ =~= "  "@ + "0x"@);
    let before = " "@ + listing::cyan(color) + text::pad_right(p.name, 22) + listing::reset(color);
    let after = "      "@ + text::pad_left(count, 5, ' ') + "\n"@;
    assert(row =~= before + "  "@ + number + after);
    assert(shown(number, before + "  "@ + number + after));
    crate::text_laws::padding_keeps_the_text(count, 5, ' ');
    lemma_suffix_shown(count, text::pad_left(count, 5, ' '));
    assert(shown(text::pad_left(count, 5, ' '), row));
    lemma_shown_through(count, text::pad_left(count, 5, ' '), row);
}

proof fn lemma_prefix_shown(part: Seq<char>, whole: Seq<char>)
    requires
        part.is_prefix_of(whole),
    ensures
        shown(part, whole),
{
    assert(whole.subrange(0, (0 + part.len()) as int) =~= part);
}

proof fn lemma_suffix_shown(part: Seq<char>, whole: Seq<char>)
    requires
        part.is_suffix_of(whole),
    ensures
        shown(part, whole),
{
    let i = whole.len() - part.len();
    assert(whole.subrange(i, i + part.len()) =~= part);
}

proof fn lemma_register_row_among(registers: Seq<RegisterView>, color: bool, i: int)
    requires
        0 <= i < registers.len(),
    ensures
        shown(listing::register_row(registers[i], color), listing::register_rows(registers, color)),
    decreases registers.len(),
{
    broadcast use group_shown;

    if i < registers.len() - 1 {
        lemma_register_row_among(registers.drop_last(), color, i);
    } else {
        assert(registers[i] == registers.last());
    }
}

/// The listing of the registers of a peripheral shows each of them in a row, with its name,
/// its offset, its width, its access and the number of its fields.
#[verifier::rlimit(60)]
#[verifier::spinoff_prover]
pub proof fn every_register_is_listed(p: PeripheralView, color: bool, i: int)
    requires
        0 <= i < p.registers.len(),
    ensures
        ({
            let r = p.registers[i];
            let row = listing::register_row(r, color);
            &&& shown(row, listing::registers_listing(p, color))
            &&& shown(p.name, listing::registers_listing(p, color))
            &&& shown(r.name, row)
            &&& shown(text::hex_padded(r.address_offset as nat, 6), row)
            &&& shown(text::decimal(r.size_bits as nat), row)
            &&& shown(listing::access_name(r.access), row)
            &&& shown(text::decimal(r.fields.len()), row)
        }),
{
    broadcast use group_shown;

    let r = p.registers[i];
    let all = listing::by_offset(p.registers);
    assert(p.registers.contains(r));
    lemma_still_there::<&RegisterModel>(p.registers, r);
    let k = all.index_of(r);
    assert(all[k] == r);
    lemma_register_row_among(all, color, k);
    let row = listing::register_row(r, color);
    let rows = listing::register_rows(all, color);
    assert(shown(rows, listing::registers_listing(p, color)));
    lemma_shown_through(row, rows, listing::registers_listing(p, color));
    crate::text_laws::padding_keeps_the_text(r.name, 34, ' ');
    lemma_prefix_shown(r.name, text::pad_right(r.name, 34));
    assert(shown(text::pad_right(r.name, 34), row));
    lemma_shown_through(r.name, text::pad_right(r.name, 34), row);
    let size = text::decimal(r.size_bits as nat);
    crate::text_laws::padding_keeps_the_text(size, 4, ' ');
    lemma_suffix_shown(size, text::pad_left(size, 4, ' '));
    assert(shown(text::pad_left(size, 4, ' '), row));
    lemma_shown_through(size, text::pad_left(size, 4, ' '), row);
    let access = listing::access_name(r.access);
    crate::text_laws::padding_keeps_the_text(access, 10, ' ');
    lemma_prefix_shown(access, text::pad_right(access, 10));
    assert(shown(text::pad_right(access, 10), row));
    lemma_shown_through(access, text::pad_right(access, 10), row);
}

proof fn lemma_field_row_among(fields: Seq<FieldView>, color: bool, i: int)
    requires
        0 <= i < fields.len(),
    ensures
        shown(listing::field_row(fields[i], color), listing::field_rows(fields, color)),
    decreases fields.len(),
{
    broadcast use group_shown;

    if i < fields.len() - 1 {
        lemma_field_row_among(fields.drop_last(), color, i);
    } else {
        assert(fields[i] == fields.last());
    }
}

/// How the bits of a field are written: the one that it has, or the highest and the lowest.
pub open spec fn bits_written(f: FieldView) -> Seq<char> {
    if f.bit_width == 1 {
        "["@ + text::decimal(f.bit_offset as nat) + "]"@
    } else {
        "["@ + text::decimal((f.bit_offset + f.bit_width - 1) as nat) + ":"@ + text::decimal(f.bit_offset as nat) + "]"@
    }
}

/// The listing of the fields of a register shows each of them in a row, with its name, its
/// bits, its access and the values that the SVD allows: all of them where they are few, and
/// else how many there are.
#[verifier::rlimit(60)]
#[verifier::spinoff_prover]
pub proof fn every_field_is_listed(p: PeripheralView, r: RegisterView, color: bool, i: int)
    requires
        0 <= i < r.fields.len(),
        r.fields[i].bit_width > 0,
    ensures
        ({
            let f = r.fields[i];
            let row = listing::field_row(f, color);
            &&& shown(row, listing::fields_listing(p, r, color))
            &&& shown(p.name + "."@ + r.name, listing::fields_listing(p, r, color))
            &&& shown(f.name, row)
            &&& shown(bits_written(f), row)
            &&& shown(listing::short_access_name(f.access), row)
            &&& f.allowed_values is None ==> shown("(no SVD enum)"@, row)
            &&& f.allowed_values matches Some(allowed) ==> {
                let all = text::join(messages::enum_entries(allowed), ", "@);
                &&& text::byte_len(all) <= 50 ==> shown(all, row)
                &&& text::byte_len(all) > 50 ==> shown(text::decimal(allowed.len()), row)
            }
        }),
{
    broadcast use group_shown;

    let f = r.fields[i];
    let all = listing::by_bit(r.fields);
    assert(r.fields.contains(f));
    lemma_still_there::<&FieldModel>(r.fields, f);
    let k = all.index_of(f);
    assert(all[k] == f);
    lemma_field_row_among(all, color, k);
    let row = listing::field_row(f, color);
    let rows = listing::field_rows(all, color);
    let list = listing::fields_listing(p, r, color);
    assert(shown(rows, list));
    lemma_shown_through(row, rows, list);
    let start = "\n "@ + listing::bold(color);
    let path = p.name + "."@ + r.name;
    let head = "\n "@ + listing::bold(color) + p.name + "."@ + r.name + listing::reset(color);
    assert(head =~= start + path + listing::reset(color));
    assert(shown(path, head));
    assert(shown(head, list));
    lemma_shown_through(path, head, list);
    crate::text_laws::padding_keeps_the_text(f.name, 20, ' ');
    lemma_prefix_shown(f.name, text::pad_right(f.name, 20));
    assert(shown(text::pad_right(f.name, 20), row));
    lemma_shown_through(f.name, text::pad_right(f.name, 20), row);
    assert(listing::bit_range(f) == bits_written(f));
    crate::text_laws::padding_keeps_the_text(bits_written(f), 12, ' ');
    lemma_suffix_shown(bits_written(f), text::pad_left(bits_written(f), 12, ' '));
    assert(shown(text::pad_left(bits_written(f), 12, ' '), row));
    lemma_shown_through(bits_written(f), text::pad_left(bits_written(f), 12, ' '), row);
    let access = listing::short_access_name(f.access);
    crate::text_laws::padding_keeps_the_text(access, 10, ' ');
    lemma_prefix_shown(access, text::pad_right(access, 10));
    assert(shown(text::pad_right(access, 10), row));
    lemma_shown_through(access, text::pad_right(access, 10), row);
    let cell = listing::allowed_cell(f.allowed_values, color);
    assert(shown(cell, row));
    match f.allowed_values {
        None => {
            assert(shown("(no SVD enum)"@, cell));
            lemma_shown_through("(no SVD enum)"@, cell, row);
        },
        Some(allowed) => {
            let line = text::join(messages::enum_entries(allowed), ", "@);
            if text::byte_len(line) > 50 {
                assert(shown(text::decimal(allowed.len()), cell));
                lemma_shown_through(text::decimal(allowed.len()), cell, row);
            }
        },
    }
}

/// A long list of values is cut after a whole entry: as many of the first entries are kept as
/// fit, and at least one.
pub proof fn long_lists_keep_the_first_entries(entries: Seq<Seq<char>>, n: nat)
    requires
        entries.len() > 0,
    ensures
        exists|k: int|
            {
                &&& 1 <= k <= entries.len()
                &&& listing::fitting_entries(entries, n) == #[trigger] text::join(entries.take(k), ", "@)
                &&& k > 1 ==> text::byte_len(text::join(entries.take(k), ", "@)) <= n
                &&& forall|m: int|
                    k < m <= entries.len() ==> text::byte_len(#[trigger] text::join(entries.take(m), ", "@)) > n
            },
    decreases entries.len(),
{
    let all = entries.len() as int;
    assert(entries.take(all) =~= entries);
    if entries.len() <= 1 || text::byte_len(text::join(entries, ", "@)) <= n {
        assert(listing::fitting_entries(entries, n) == text::join(entries.take(all), ", "@));
    } else {
        let rest = entries.drop_last();
        long_lists_keep_the_first_entries(rest, n);
        let k = choose|k: int|
            {
                &&& 1 <= k <= rest.len()
                &&& listing::fitting_entries(rest, n) == #[trigger] text::join(rest.take(k), ", "@)
                &&& k > 1 ==> text::byte_len(text::join(rest.take(k), ", "@)) <= n
                &&& forall|m: int|
                    k < m <= rest.len() ==> text::byte_len(#[trigger] text::join(rest.take(m), ", "@)) > n
            };
        assert(rest.take(k) =~= entries.take(k));
        assert(listing::fitting_entries(entries, n) == text::join(entries.take(k), ", "@));
        assert forall|m: int| k < m <= entries.len() implies text::byte_len(
            #[trigger] text::join(entries.take(m), ", "@),
        ) > n by {
            if m <= rest.len() {
                assert(rest.take(m) =~= entries.take(m));
                assert(text::byte_len(text::join(rest.take(m), ", "@)) > n);
            } else {
                assert(entries.take(m) =~= entries);
            }
        }
    }
}

/// What is said of an unknown peripheral names it, and all that there are.
pub proof fn unknown_peripherals_are_answered(model: ModelView, name: Seq<char>, i: int)
    requires
        0 <= i < model.peripherals.len(),
    ensures
        shown(name, listing::unknown_peripheral(model, name)),
        shown(model.peripherals[i].name, listing::unknown_peripheral(model, name)),
{
    broadcast use group_shown;

    let p = model.peripherals[i];
    let all = listing::by_name(model.peripherals);
    assert(model.peripherals.contains(p));
    lemma_still_there::<&PeripheralModel>(model.peripherals, p);
    let k = all.index_of(p);
    let names = listing::names_of(all);
    assert(names[k] == p.name);
    lemma_shown_joined(names, ", "@, k);
    let line = text::join(names, ", "@);
    assert(shown(line, listing::unknown_peripheral(model, name)));
    lemma_shown_through(p.name, line, listing::unknown_peripheral(model, name));
}

/// The rows of a listing follow each other as what they list does.
pub proof fn rows_follow_each_other(
    p: Seq<PeripheralView>,
    q: PeripheralView,
    r: Seq<RegisterView>,
    s: RegisterView,
    f: Seq<FieldView>,
    g: FieldView,
    color: bool,
)
    ensures
        listing::peripheral_rows(p.push(q), color) == listing::peripheral_rows(p, color) + listing::peripheral_row(
            q,
            color,
        ),
        listing::register_rows(r.push(s), color) == listing::register_rows(r, color) + listing::register_row(s, color),
        listing::field_rows(f.push(g), color) == listing::field_rows(f, color) + listing::field_row(g, color),
{
    assert(p.push(q).drop_last() =~= p);
    assert(r.push(s).drop_last() =~= r);
    assert(f.push(g).drop_last() =~= f);
}

/// The findings of a report follow each other, with a rule between each two.
pub proof fn findings_follow_each_other(
    findings: Seq<FindingView>,
    f: FindingView,
    sources: Map<Seq<char>, Seq<Seq<char>>>,
    color: bool,
)
    requires
        findings.len() > 0,
    ensures
        ({
            let c = report::palette(color);
            report::findings_text(findings.push(f), sources, c) == report::findings_text(findings, sources, c)
                + report::separator_line(c) + report::finding_text(f, sources, c)
        }),
{
    assert(findings.push(f).drop_last() =~= findings);
}

/// Each access has its own name.
pub proof fn accesses_are_named(access: Access)
    ensures
        listing::access_name(access) == "read"@ + "only"@ <==> access == Access::ReadOnly,
        listing::access_name(access) == "read"@ + "write"@ <==> access == Access::ReadWrite,
        listing::access_name(access) == "read"@ + "write"@ + "once"@ <==> access == Access::ReadWriteOnce,
        listing::access_name(access) == "write"@ + "once"@ <==> access == Access::WriteOnce,
        listing::access_name(access) == "write"@ + "only"@ <==> access == Access::WriteOnly,
        listing::short_access_name(access) == "ro"@ <==> access == Access::ReadOnly,
        listing::short_access_name(access) == "rw"@ <==> access == Access::ReadWrite,
        listing::short_access_name(access) == "wo"@ <==> access == Access::WriteOnly,
{
    reveal_strlit("read");
    reveal_strlit("write");
    reveal_strlit("only");
    reveal_strlit("once");
    reveal_strlit("readonly");
    reveal_strlit("readwrite");
    reveal_strlit("readwriteonce");
    reveal_strlit("writeonce");
    reveal_strlit("writeonly");
    reveal_strlit("ro");
    reveal_strlit("rw");
    reveal_strlit("rw-once");
    reveal_strlit("w-once");
    reveal_strlit("wo");
    assert("read"@ + "only"@ =~= "readonly"@);
    assert("read"@ + "write"@ =~= "readwrite"@);
    assert("read"@ + "write"@ + "once"@ =~= "readwriteonce"@);
    assert("write"@ + "once"@ =~= "writeonce"@);
    assert("write"@ + "only"@ =~= "writeonly"@);
    assert("readonly"@.len() == 8 && "readwrite"@.len() == 9 && "readwriteonce"@.len() == 13 && "writeonce"@.len() == 9
        && "writeonly"@.len() == 9);
    assert("readwrite"@[0] == 'r' && "writeonce"@[0] == 'w' && "writeonly"@[0] == 'w');
    assert("writeonce"@[6] == 'n' && "writeonly"@[6] == 'n');
    assert("writeonce"@[7] == 'c' && "writeonly"@[7] == 'l');
    assert("ro"@.len() == 2 && "rw"@.len() == 2 && "wo"@.len() == 2 && "rw-once"@.len() == 7 && "w-once"@.len() == 6);
    assert("ro"@[0] == 'r' && "ro"@[1] == 'o' && "rw"@[0] == 'r' && "rw"@[1] == 'w' && "wo"@[0] == 'w');
}

// ── Explanations ─────────────────────────────────────────────────────────────

proof fn lemma_line_in_block(lines: Seq<Seq<char>>, open: Seq<char>, close: Seq<char>, i: int)
    requires
        0 <= i < lines.len(),
    ensures
        shown(lines[i], explain::block(lines, open, close)),
    decreases lines.len(),
{
    broadcast use group_shown;

    if i < lines.len() - 1 {
        lemma_line_in_block(lines.drop_last(), open, close, i);
    } else {
        assert(lines[i] == lines.last());
    }
}

proof fn lemma_line_in_section(title: Seq<char>, lines: Seq<Seq<char>>, escape: Seq<char>, color: bool, i: int)
    requires
        0 <= i < lines.len(),
    ensures
        shown(lines[i], explain::section(title, lines, escape, color)),
{
    broadcast use group_shown;

    let reset = explain::code(color, "\x1b[0m"@);
    let close = if escape.len() == 0 {
        ""@
    } else {
        reset
    };
    let block = explain::block(lines, explain::code(color, escape), close);
    lemma_line_in_block(lines, explain::code(color, escape), close, i);
    assert(shown(block, explain::section(title, lines, escape, color)));
    lemma_shown_through(lines[i], block, explain::section(title, lines, escape, color));
}

/// An explanation shows its rule, what the rule checks, the SVD fact behind it, and the two
/// examples, line by line.
#[verifier::rlimit(60)]
#[verifier::spinoff_prover]
pub proof fn explanations_are_shown(e: ExplanationView, color: bool, i: int)
    ensures
        shown(e.rule_id, explain::explanation_text(e, color)),
        0 <= i < explain::wrapped(e.what, 70).len() ==> shown(
            explain::wrapped(e.what, 70)[i],
            explain::explanation_text(e, color),
        ),
        0 <= i < explain::wrapped(e.svd_fact, 70).len() ==> shown(
            explain::wrapped(e.svd_fact, 70)[i],
            explain::explanation_text(e, color),
        ),
        0 <= i < text::lines(e.bad_example).len() ==> shown(
            text::lines(e.bad_example)[i],
            explain::explanation_text(e, color),
        ),
        0 <= i < text::lines(e.ok_example).len() ==> shown(
            text::lines(e.ok_example)[i],
            explain::explanation_text(e, color),
        ),
{
    broadcast use group_shown;

    let whole = explain::explanation_text(e, color);
    let what = explain::wrapped(e.what, 70);
    let fact = explain::wrapped(e.svd_fact, 70);
    let bad = text::lines(e.bad_example);
    let ok = text::lines(e.ok_example);
    let a = explain::section("What it checks"@, what, ""@, color);
    let b = explain::section("SVD fact"@, fact, "\x1b[36m"@, color);
    let c = explain::section("Example — triggers this rule"@, bad, "\x1b[31m"@, color);
    let d = explain::section("Example — passes"@, ok, "\x1b[32m"@, color);
    assert(shown(a, whole) && shown(b, whole) && shown(c, whole) && shown(d, whole));
    if 0 <= i < what.len() {
        lemma_line_in_section("What it checks"@, what, ""@, color, i);
        lemma_shown_through(what[i], a, whole);
    }
    if 0 <= i < fact.len() {
        lemma_line_in_section("SVD fact"@, fact, "\x1b[36m"@, color, i);
        lemma_shown_through(fact[i], b, whole);
    }
    if 0 <= i < bad.len() {
        lemma_line_in_section("Example — triggers this rule"@, bad, "\x1b[31m"@, color, i);
        lemma_shown_through(bad[i], c, whole);
    }
    if 0 <= i < ok.len() {
        lemma_line_in_section("Example — passes"@, ok, "\x1b[32m"@, color, i);
        lemma_shown_through(ok[i], d, whole);
    }
}

/// What is said of an unknown rule names it, and every rule of a finding.
pub proof fn unknown_rules_are_answered(rule_id: Seq<char>, kind: FindingKindView)
    ensures
        shown(rule_id, explain::unknown_rule_text(rule_id)),
        shown(kind.rule_id(), explain::unknown_rule_text(rule_id)),
{
    broadcast use group_shown;

    explain::every_rule_is_explained(kind);
    let rules = explain::known_rules();
    let i = rules.index_of(kind.rule_id());
    lemma_shown_joined(rules, ", "@, i);
    let line = text::join(rules, ", "@);
    assert(shown(line, explain::unknown_rule_text(rule_id)));
    lemma_shown_through(kind.rule_id(), line, explain::unknown_rule_text(rule_id));
}

// ── SARIF ────────────────────────────────────────────────────────────────────

/// The results of a document tell of each finding and note, in order: its rule, its level,
/// its text, its file and its line.
pub proof fn results_tell_where(file: Seq<char>, line: usize, message: Seq<char>)
    ensures
        ({
            let place = sarif::item(sarif::sarif_locations(file, line), 0);
            &&& sarif::item(sarif::sarif_locations(file, line), 1) is None
            &&& place matches Some(l) && (sarif::member(l, "physicalLocation"@) matches Some(p) && {
                &&& sarif::member(p, "artifactLocation"@) matches Some(a) && sarif::member(a, "uri"@) == Some(
                    JsonView::Text(file),
                )
                &&& sarif::member(p, "region"@) matches Some(r) && sarif::member(r, "startLine"@) == Some(
                    JsonView::Number(line as u64),
                )
            })
        }),
        sarif::member(sarif::sarif_message(message), "text"@) == Some(JsonView::Text(message)),
        report::severity_name(Severity::Error) == "error"@,
        report::severity_name(Severity::Warning) == "warning"@,
{
    reveal_with_fuel(sarif::member_map, 3);
    reveal_strlit("artifactLocation");
    reveal_strlit("region");
    assert("artifactLocation"@.len() == 16 && "region"@.len() == 6);
    let uri = seq![("uri"@, JsonView::Text(file))];
    let start = seq![("startLine"@, JsonView::Number(line as u64))];
    assert(uri.last() == uri[0] && start.last() == start[0]);
    let physical = seq![("artifactLocation"@, sarif::object(uri)), ("region"@, sarif::object(start))];
    assert(physical.drop_last().last() == physical[0]);
    let outer = seq![("physicalLocation"@, sarif::object(physical))];
    assert(outer.last() == outer[0]);
    let text = seq![("text"@, JsonView::Text(message))];
    assert(text.last() == text[0]);
}

/// A document lists a rule exactly if one of its findings has it, or, under `note`, if it
/// has notes.
pub proof fn documents_list_the_rules_that_are_broken(
    findings: Seq<FindingView>,
    notes: Seq<NotedView>,
    id: Seq<char>,
)
    ensures
        ({
            let rules = sarif::rule_objects(sarif::all_rules().len(), findings, notes);
            (exists|k: int|
                0 <= k < rules.len() && sarif::member(#[trigger] rules[k], "id"@) == Some(JsonView::Text(id))) <==> (id
                == "note"@ && notes.len() > 0) || exists|i: int|
                0 <= i < findings.len() && (#[trigger] findings[i]).kind.rule_id() == id
        }),
{
    let rules = sarif::rule_objects(sarif::all_rules().len(), findings, notes);
    sarif::listed_rules_are_those_used(findings, notes, id);
    if sarif::rule_used(id, findings, notes) {
        let k = rules.index_of(sarif::rule_object(id));
        sarif::lemma_rule_object(id);
        assert(sarif::member(rules[k], "id"@) == Some(JsonView::Text(id)));
    }
    if exists|k: int| 0 <= k < rules.len() && sarif::member(#[trigger] rules[k], "id"@) == Some(JsonView::Text(id)) {
        let k = choose|k: int|
            0 <= k < rules.len() && sarif::member(#[trigger] rules[k], "id"@) == Some(JsonView::Text(id));
        let m = sarif::lemma_listed_from(sarif::all_rules().len(), findings, notes, k);
        sarif::lemma_rule_object(sarif::all_rules()[m]);
        assert(rules.contains(rules[k]));
    }
}

/// A document names the tool, and lists its rules under it.
#[verifier::rlimit(60)]
#[verifier::spinoff_prover]
pub proof fn documents_name_the_tool(findings: Seq<FindingView>, notes: Seq<NotedView>)
    ensures
        sarif::document_run(sarif::sarif_document(findings, notes)) matches Some(run) && (sarif::member(run, "tool"@)
            matches Some(tool) && (sarif::member(tool, "driver"@) matches Some(driver) && {
            &&& sarif::member(driver, "name"@) == Some(JsonView::Text("silicon"@))
            &&& sarif::member(driver, "rules"@) == Some(
                JsonView::List(sarif::rule_objects(sarif::all_rules().len(), findings, notes)),
            )
        })),
{
    reveal_strlit("$schema");
    reveal_strlit("version");
    reveal_strlit("runs");
    reveal_strlit("tool");
    reveal_strlit("results");
    reveal_strlit("name");
    reveal_strlit("rules");
    assert("$schema"@.len() == 7 && "version"@.len() == 7 && "runs"@.len() == 4 && "name"@.len() == 4 && "rules"@.len()
        == 5 && "tool"@.len() == 4 && "results"@.len() == 7);
    let rules = sarif::rule_objects(sarif::all_rules().len(), findings, notes);
    let run_members = seq![
        ("tool"@, sarif::sarif_tool(rules)),
        ("results"@, JsonView::List(sarif::sarif_results(findings, notes))),
    ];
    let run = sarif::object(run_members);
    let driver_members = seq![
        ("name"@, JsonView::Text("silicon"@)),
        ("version"@, JsonView::Text("0.1.0"@)),
        ("rules"@, JsonView::List(rules)),
    ];
    let members = seq![
        (
            "$schema"@,
            JsonView::Text(
                "https://raw.githubusercontent.com/oasis-tcs/sarif-spec/master/Schemata/sarif-schema-2.1.0.json"@,
            ),
        ),
        ("version"@, JsonView::Text("2.1.0"@)),
        ("runs"@, JsonView::List(seq![run])),
    ];
    reveal_with_fuel(sarif::member_map, 4);
    assert(members.drop_last().last() == members[1]);
    assert(sarif::sarif_document(findings, notes) == sarif::object(members));
    assert(run_members.drop_last().last() == run_members[0]);
    assert(driver_members.drop_last().last() == driver_members[1]);
    assert(driver_members.drop_last().drop_last().last() == driver_members[0]);
    let tool_members = seq![("driver"@, sarif::object(driver_members))];
    assert(tool_members.last() == tool_members[0]);
    assert(sarif::sarif_tool(rules) == sarif::object(tool_members));
}

} // verus!
