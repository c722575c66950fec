//! What holds of every report.

use vstd::prelude::*;

use crate::bits;
use crate::finding::{FindingKindView, FindingView, IndexEvidenceView, NoteView, NotedView, Severity};
use crate::messages;
use crate::report;
use crate::report::PaletteView;
use crate::svd_model::EnumValueView;
use crate::text;

verus! {

// ── Text without escape codes ────────────────────────────────────────────────

/// Whether a text holds no escape code.
pub open spec fn plain(s: Seq<char>) -> bool {
    forall|i: int| 0 <= i < s.len() ==> #[trigger] s[i] != '\x1b'
}

broadcast proof fn lemma_plain_concat(a: Seq<char>, b: Seq<char>)
    ensures
        #[trigger] plain(a + b) <==> plain(a) && plain(b),
{
    if plain(a + b) {
        assert forall|i: int| 0 <= i < a.len() implies #[trigger] a[i] != '\x1b' by {
            assert((a + b)[i] == a[i]);
        }
        assert forall|i: int| 0 <= i < b.len() implies #[trigger] b[i] != '\x1b' by {
            assert((a + b)[a.len() + i] == b[i]);
        }
    }
}

broadcast proof fn lemma_plain_empty()
    ensures
        #[trigger] plain(Seq::<char>::empty()),
{
}

broadcast proof fn lemma_plain_fill(c: char, n: nat)
    requires
        c != '\x1b',
    ensures
        #[trigger] plain(text::fill(c, n)),
{
}

proof fn lemma_plain_digits(n: nat, radix: nat)
    requires
        2 <= radix <= 16,
    ensures
        plain(text::digits(n, radix)),
    decreases n,
{
    if n >= radix {
        vstd::arithmetic::div_mod::lemma_div_decreases(n as int, radix as int);
        vstd::arithmetic::div_mod::lemma_mod_bound(n as int, radix as int);
        lemma_plain_digits(n / radix, radix);
    }
}

broadcast proof fn lemma_plain_decimal(n: nat)
    ensures
        #[trigger] plain(text::decimal(n)),
{
    lemma_plain_digits(n, 10);
}

broadcast proof fn lemma_plain_hex(n: nat)
    ensures
        #[trigger] plain(text::hex(n)),
{
    lemma_plain_digits(n, 16);
}

broadcast proof fn lemma_plain_pad_left(s: Seq<char>, width: nat, c: char)
    requires
        plain(s),
        c != '\x1b',
    ensures
        #[trigger] plain(text::pad_left(s, width, c)),
{
    if s.len() < width {
        lemma_plain_fill(c, (width - s.len()) as nat);
        lemma_plain_concat(text::fill(c, (width - s.len()) as nat), s);
    }
}

broadcast proof fn lemma_plain_hex_padded(n: nat, width: nat)
    ensures
        #[trigger] plain(text::hex_padded(n, width)),
{
    lemma_plain_hex(n);
    lemma_plain_pad_left(text::hex(n), width, '0');
}

broadcast group group_plain {
    lemma_plain_concat,
    lemma_plain_empty,
    lemma_plain_fill,
    lemma_plain_decimal,
    lemma_plain_hex,
    lemma_plain_pad_left,
    lemma_plain_hex_padded,
}

proof fn lemma_plain_trim_start(s: Seq<char>)
    requires
        plain(s),
    ensures
        plain(text::trim_start(s)),
    decreases s.len(),
{
    if s.len() > 0 && text::is_space(s.first()) {
        lemma_plain_trim_start(s.drop_first());
    }
}

proof fn lemma_plain_lines(s: Seq<char>, from: int)
    requires
        plain(s),
        0 <= from,
    ensures
        forall|i: int| 0 <= i < text::lines_from(s, from).len() ==> plain(#[trigger] text::lines_from(s, from)[i]),
    decreases s.len() - from,
{
    if from < s.len() {
        text::lemma_line_end(s, from);
        let end = text::line_end(s, from);
        if end < s.len() {
            lemma_plain_lines(s, end + 1);
            assert forall|i: int| 0 <= i < text::lines_from(s, from).len() implies plain(
                #[trigger] text::lines_from(s, from)[i],
            ) by {
                if i > 0 {
                    assert(text::lines_from(s, from)[i] == text::lines_from(s, end + 1)[i - 1]);
                }
            }
        }
    }
}

proof fn lemma_plain_literals_1()
    ensures
        plain(""@),
        plain(" "@),
        plain("  "@),
        plain("    "@),
        plain("       "@),
        plain("  │  "@),
        plain(" bits"@),
        plain(" bits wide in the SVD (max "@),
        plain(" doesn't fit in "@),
        plain(" error"@),
        plain(" has no enumerated values in the SVD; value membership is unverifiable"@),
        plain(" has no fields defined in the SVD; bit-level checks skipped"@),
        plain(" in the SVD"@),
        plain(" is "@),
        plain(" is inside "@),
        plain(" is not a register in the SVD"@),
        plain(" is not within any peripheral's address block"@),
        plain(" is out of range"@),
        plain(" isn't a compile-time constant — check skipped"@),
        plain(" isn't statically determinable for this operator"@),
        plain(" not in SVD enum"@),
        plain(" resolved, but no register name was determinable"@),
        plain(" sets bits outside all defined fields"@),
        plain(" warning"@),
{
    reveal_strlit("");
    reveal_strlit(" ");
    reveal_strlit("  ");
    reveal_strlit("    ");
    reveal_strlit("       ");
    reveal_strlit("  │  ");
    reveal_strlit(" bits");
    reveal_strlit(" bits wide in the SVD (max ");
    reveal_strlit(" doesn't fit in ");
    reveal_strlit(" error");
    reveal_strlit(" has no enumerated values in the SVD; value membership is unverifiable");
    reveal_strlit(" has no fields defined in the SVD; bit-level checks skipped");
    reveal_strlit(" in the SVD");
    reveal_strlit(" is ");
    reveal_strlit(" is inside ");
    reveal_strlit(" is not a register in the SVD");
    reveal_strlit(" is not within any peripheral's address block");
    reveal_strlit(" is out of range");
    reveal_strlit(" isn't a compile-time constant — check skipped");
    reveal_strlit(" isn't statically determinable for this operator");
    reveal_strlit(" not in SVD enum");
    reveal_strlit(" resolved, but no register name was determinable");
    reveal_strlit(" sets bits outside all defined fields");
    reveal_strlit(" warning");
}

proof fn lemma_plain_literals_2()
    ensures
        plain(" · line "@),
        plain(" — "@),
        plain(" — access = read-only"@),
        plain(" — argument "@),
        plain(" — defined bits: 0x"@),
        plain(" — not a register in the SVD"@),
        plain(" — read-only field written"@),
        plain(" — read-only register written"@),
        plain(" — value "@),
        plain(" — value 0x"@),
        plain(" ℹ notes "@),
        plain(" ⚠ "@),
        plain(" ✓ no findings "@),
        plain(" ✗ "@),
        plain("'s block but matches no register"@),
        plain("("@),
        plain("(GPIO"@),
        plain(")"@),
        plain(") — func not in SVD enum"@),
        plain(") — no peripheral "@),
        plain(") — pin doesn't exist (RP2040 has GPIO0..GPIO29)"@),
        plain(", "@),
        plain("-bit register (max 0x"@),
        plain("."@),
{
    reveal_strlit(" · line ");
    reveal_strlit(" — ");
    reveal_strlit(" — access = read-only");
    reveal_strlit(" — argument ");
    reveal_strlit(" — defined bits: 0x");
    reveal_strlit(" — not a register in the SVD");
    reveal_strlit(" — read-only field written");
    reveal_strlit(" — read-only register written");
    reveal_strlit(" — value ");
    reveal_strlit(" — value 0x");
    reveal_strlit(" ℹ notes ");
    reveal_strlit(" ⚠ ");
    reveal_strlit(" ✓ no findings ");
    reveal_strlit(" ✗ ");
    reveal_strlit("'s block but matches no register");
    reveal_strlit("(");
    reveal_strlit("(GPIO");
    reveal_strlit(")");
    reveal_strlit(") — func not in SVD enum");
    reveal_strlit(") — no peripheral ");
    reveal_strlit(") — pin doesn't exist (RP2040 has GPIO0..GPIO29)");
    reveal_strlit(", ");
    reveal_strlit("-bit register (max 0x");
    reveal_strlit(".");
}

proof fn lemma_plain_literals_3()
    ensures
        plain("0x"@),
        plain(":"@),
        plain(": argument "@),
        plain(": index "@),
        plain("; likely not a register access"@),
        plain("="@),
        plain("SVD: "@),
        plain("SVD: IO_BANK0.GPIO"@),
        plain("\n"@),
        plain("\n "@),
        plain("\n  "@),
        plain("\n    "@),
        plain(",\n              "@),
        plain("\n     allowed: "@),
        plain("\n\n"@),
        plain("_CTRL.FUNCSEL\n     allowed: "@),
        plain("a PWM slice has the channels 0 and 1"@),
        plain("access target is not statically determinable"@),
        plain("address 0x"@),
        plain("address-not-a-register"@),
        plain("error"@),
        plain("field-value-not-in-enum"@),
        plain("gpio_set_function(GPIO"@),
        plain("hal-call-funcsel-not-in-enum"@),
{
    reveal_strlit("0x");
    reveal_strlit(":");
    reveal_strlit(": argument ");
    reveal_strlit(": index ");
    reveal_strlit("; likely not a register access");
    reveal_strlit("=");
    reveal_strlit("SVD: ");
    reveal_strlit("SVD: IO_BANK0.GPIO");
    reveal_strlit("\n");
    reveal_strlit("\n ");
    reveal_strlit("\n  ");
    reveal_strlit("\n    ");
    reveal_strlit(",\n              ");
    reveal_strlit("\n     allowed: ");
    reveal_strlit("\n\n");
    reveal_strlit("_CTRL.FUNCSEL\n     allowed: ");
    reveal_strlit("a PWM slice has the channels 0 and 1");
    reveal_strlit("access target is not statically determinable");
    reveal_strlit("address 0x");
    reveal_strlit("address-not-a-register");
    reveal_strlit("error");
    reveal_strlit("field-value-not-in-enum");
    reveal_strlit("gpio_set_function(GPIO");
    reveal_strlit("hal-call-funcsel-not-in-enum");
}

proof fn lemma_plain_literals_4()
    ensures
        plain("hal-call-index-out-of-range"@),
        plain("hal-call-instance-not-in-svd"@),
        plain("hal-call-pin-out-of-range"@),
        plain("no SVD peripheral named "@),
        plain("nonexistent-register"@),
        plain("peripheral "@),
        plain("s"@),
        plain("the resulting value written to "@),
        plain("the value written to "@),
        plain("value-exceeds-register-width"@),
        plain("value-sets-undefined-bits"@),
        plain("warning"@),
        plain("write-to-read-only-field"@),
        plain("write-to-read-only-register"@),
        plain("·"@),
        plain("│"@),
        plain("╭─"@),
        plain("╰─"@),
        plain("╰──"@),
        plain("⚠"@),
        plain("✗"@),
{
    reveal_strlit("hal-call-index-out-of-range");
    reveal_strlit("hal-call-instance-not-in-svd");
    reveal_strlit("hal-call-pin-out-of-range");
    reveal_strlit("no SVD peripheral named ");
    reveal_strlit("nonexistent-register");
    reveal_strlit("peripheral ");
    reveal_strlit("s");
    reveal_strlit("the resulting value written to ");
    reveal_strlit("the value written to ");
    reveal_strlit("value-exceeds-register-width");
    reveal_strlit("value-sets-undefined-bits");
    reveal_strlit("warning");
    reveal_strlit("write-to-read-only-field");
    reveal_strlit("write-to-read-only-register");
    reveal_strlit("·");
    reveal_strlit("│");
    reveal_strlit("╭─");
    reveal_strlit("╰─");
    reveal_strlit("╰──");
    reveal_strlit("⚠");
    reveal_strlit("✗");
}

proof fn lemma_plain_literals()
    ensures
        plain(""@),
        plain(" "@),
        plain("  "@),
        plain("    "@),
        plain("       "@),
        plain("  │  "@),
        plain(" bits"@),
        plain(" bits wide in the SVD (max "@),
        plain(" doesn't fit in "@),
        plain(" error"@),
        plain(" has no enumerated values in the SVD; value membership is unverifiable"@),
        plain(" has no fields defined in the SVD; bit-level checks skipped"@),
        plain(" in the SVD"@),
        plain(" is "@),
        plain(" is inside "@),
        plain(" is not a register in the SVD"@),
        plain(" is not within any peripheral's address block"@),
        plain(" is out of range"@),
        plain(" isn't a compile-time constant — check skipped"@),
        plain(" isn't statically determinable for this operator"@),
        plain(" not in SVD enum"@),
        plain(" resolved, but no register name was determinable"@),
        plain(" sets bits outside all defined fields"@),
        plain(" warning"@),
        plain(" · line "@),
        plain(" — "@),
        plain(" — access = read-only"@),
        plain(" — argument "@),
        plain(" — defined bits: 0x"@),
        plain(" — not a register in the SVD"@),
        plain(" — read-only field written"@),
        plain(" — read-only register written"@),
        plain(" — value "@),
        plain(" — value 0x"@),
        plain(" ℹ notes "@),
        plain(" ⚠ "@),
        plain(" ✓ no findings "@),
        plain(" ✗ "@),
        plain("'s block but matches no register"@),
        plain("("@),
        plain("(GPIO"@),
        plain(")"@),
        plain(") — func not in SVD enum"@),
        plain(") — no peripheral "@),
        plain(") — pin doesn't exist (RP2040 has GPIO0..GPIO29)"@),
        plain(", "@),
        plain("-bit register (max 0x"@),
        plain("."@),
        plain("0x"@),
        plain(":"@),
        plain(": argument "@),
        plain(": index "@),
        plain("; likely not a register access"@),
        plain("="@),
        plain("SVD: "@),
        plain("SVD: IO_BANK0.GPIO"@),
        plain("\n"@),
        plain("\n "@),
        plain("\n  "@),
        plain("\n    "@),
        plain(",\n              "@),
        plain("\n     allowed: "@),
        plain("\n\n"@),
        plain("_CTRL.FUNCSEL\n     allowed: "@),
        plain("a PWM slice has the channels 0 and 1"@),
        plain("access target is not statically determinable"@),
        plain("address 0x"@),
        plain("address-not-a-register"@),
        plain("error"@),
        plain("field-value-not-in-enum"@),
        plain("gpio_set_function(GPIO"@),
        plain("hal-call-funcsel-not-in-enum"@),
        plain("hal-call-index-out-of-range"@),
        plain("hal-call-instance-not-in-svd"@),
        plain("hal-call-pin-out-of-range"@),
        plain("no SVD peripheral named "@),
        plain("nonexistent-register"@),
        plain("peripheral "@),
        plain("s"@),
        plain("the resulting value written to "@),
        plain("the value written to "@),
        plain("value-exceeds-register-width"@),
        plain("value-sets-undefined-bits"@),
        plain("warning"@),
        plain("write-to-read-only-field"@),
        plain("write-to-read-only-register"@),
        plain("·"@),
        plain("│"@),
        plain("╭─"@),
        plain("╰─"@),
        plain("╰──"@),
        plain("⚠"@),
        plain("✗"@),
{
    lemma_plain_literals_1();
    lemma_plain_literals_2();
    lemma_plain_literals_3();
    lemma_plain_literals_4();
}

// ── What a finding is made of ────────────────────────────────────────────────

pub open spec fn plain_values(allowed: Seq<EnumValueView>) -> bool {
    forall|i: int| 0 <= i < allowed.len() ==> plain((#[trigger] allowed[i]).name)
}

pub open spec fn plain_evidence(evidence: IndexEvidenceView) -> bool {
    match evidence {
        IndexEvidenceView::NoSuchRegister { peripheral, register } => plain(peripheral) && plain(register),
        IndexEvidenceView::FieldTooNarrow { peripheral, register, field, bit_width } => plain(peripheral) && plain(
            register,
        ) && plain(field),
        IndexEvidenceView::NoSuchPwmChannel => true,
    }
}

/// Whether the names in a finding's kind hold no escape code.
pub open spec fn plain_kind(kind: FindingKindView) -> bool {
    match kind {
        FindingKindView::NonexistentRegister { peripheral, register } => plain(peripheral) && plain(register),
        FindingKindView::AddressNotARegister { peripheral, address } => plain(peripheral),
        FindingKindView::ValueExceedsRegisterWidth { peripheral, register, value, size_bits } => plain(peripheral)
            && plain(register),
        FindingKindView::ValueSetsUndefinedBits { peripheral, register, value, defined_mask } => plain(peripheral)
            && plain(register),
        FindingKindView::FieldValueNotInEnum { peripheral, register, field, value, allowed } => plain(peripheral)
            && plain(register) && plain(field) && plain_values(allowed),
        FindingKindView::WriteToReadOnlyRegister { peripheral, register } => plain(peripheral) && plain(register),
        FindingKindView::WriteToReadOnlyField { peripheral, register, field } => plain(peripheral) && plain(register)
            && plain(field),
        FindingKindView::HalCallPinOutOfRange { function, pin } => plain(function),
        FindingKindView::HalCallFuncselNotInEnum { pin, func, allowed } => plain_values(allowed),
        FindingKindView::HalCallIndexOutOfRange { function, arg_index, index, evidence } => plain(function)
            && plain_evidence(evidence),
        FindingKindView::HalCallInstanceNotInSvd { function, instance, peripheral } => plain(function) && plain(
            instance,
        ) && plain(peripheral),
    }
}

/// Whether nothing in a finding holds an escape code.
pub open spec fn plain_finding(f: FindingView) -> bool {
    plain_kind(f.kind) && plain(f.file) && plain(f.raw_lhs) && plain(f.raw_op) && plain(f.raw_rhs)
}

pub open spec fn plain_note(note: NoteView) -> bool {
    match note {
        NoteView::UnresolvedAccess => true,
        NoteView::UnknownPeripheralGuess { peripheral } => plain(peripheral),
        NoteView::PeripheralOnlyKnown { peripheral } => plain(peripheral),
        NoteView::AddressNotMapped { address } => true,
        NoteView::FieldUnverifiableNoEnum { peripheral, register, field } => plain(peripheral) && plain(register)
            && plain(field),
        NoteView::RegisterHasNoFields { peripheral, register } => plain(peripheral) && plain(register),
        NoteView::ValueNotDeterminableForOp { peripheral, register } => plain(peripheral) && plain(register),
        NoteView::ValueNotStaticallyKnown { peripheral, register } => plain(peripheral) && plain(register),
        NoteView::HalCallArgUnknown { function, arg_index } => plain(function),
    }
}

/// Whether the source line that is quoted, where there is one, holds no escape code.
pub open spec fn plain_line(sources: Map<Seq<char>, Seq<Seq<char>>>, file: Seq<char>, line: usize) -> bool {
    report::source_line(sources, file, line) matches Some(raw) ==> plain(raw)
}

/// Whether neither the finding nor the source line that it quotes holds an escape code.
pub open spec fn plain_in(f: FindingView, sources: Map<Seq<char>, Seq<Seq<char>>>) -> bool {
    plain_finding(f) && plain_line(sources, f.file, f.line)
}

/// Whether neither the note nor the source line that it quotes holds an escape code.
pub open spec fn plain_note_in(n: NotedView, sources: Map<Seq<char>, Seq<Seq<char>>>) -> bool {
    plain_note(n.note) && plain(n.file) && plain_line(sources, n.file, n.line)
}

proof fn lemma_plain_rows(entries: Seq<Seq<char>>)
    requires
        forall|i: int| 0 <= i < entries.len() ==> plain(#[trigger] entries[i]),
    ensures
        plain(text::join(messages::row_texts(messages::enum_rows(entries)), ",\n              "@)),
    decreases entries.len(),
{
    broadcast use group_plain;
    lemma_plain_literals();
    if entries.len() == 0 {
        assert(messages::row_texts(messages::enum_rows(entries)).len() == 0);
    } else {
        let rest = entries.drop_last();
        assert forall|i: int| 0 <= i < rest.len() implies plain(#[trigger] rest[i]) by {
            assert(rest[i] == entries[i]);
        }
        assert(entries[entries.len() - 1] == entries.last());
        lemma_plain_rows(rest);
        messages::lemma_entry_added(entries);
    }
}

proof fn lemma_plain_enum_block(allowed: Seq<EnumValueView>)
    requires
        plain_values(allowed),
    ensures
        plain(messages::enum_block(allowed)),
{
    broadcast use group_plain;
    lemma_plain_literals();
    let entries = messages::enum_entries(allowed);
    assert forall|i: int| 0 <= i < entries.len() implies plain(#[trigger] entries[i]) by {
        assert(entries[i] == messages::enum_entry(allowed[i]));
    }
    lemma_plain_rows(entries);
}

proof fn lemma_plain_title(kind: FindingKindView)
    requires
        plain_kind(kind),
    ensures
        plain(kind.title()),
        plain(kind.rule_id()),
{
    broadcast use group_plain;
    lemma_plain_literals();
}

proof fn lemma_plain_citation(kind: FindingKindView)
    requires
        plain_kind(kind),
    ensures
        kind.citation() matches Some(citation) ==> plain(citation),
{
    broadcast use group_plain;
    lemma_plain_literals();
    match kind {
        FindingKindView::FieldValueNotInEnum { peripheral, register, field, value, allowed } => {
            lemma_plain_enum_block(allowed);
        },
        FindingKindView::HalCallFuncselNotInEnum { pin, func, allowed } => {
            lemma_plain_enum_block(allowed);
        },
        _ => {},
    }
}

proof fn lemma_plain_message(note: NoteView)
    requires
        plain_note(note),
    ensures
        plain(note.message()),
{
    broadcast use group_plain;
    lemma_plain_literals();
}

// ── The report without colour ────────────────────────────────────────────────

proof fn lemma_plain_expression(f: FindingView)
    requires
        plain_finding(f),
    ensures
        plain(report::expression(f)),
{
    broadcast use group_plain;
    lemma_plain_literals();
}

proof fn lemma_plain_closing(citation: Option<Seq<char>>)
    requires
        citation matches Some(s) ==> plain(s),
    ensures
        plain(report::closing(citation, report::palette(false))),
{
    broadcast use group_plain;
    lemma_plain_literals();
    if let Some(s) = citation {
        lemma_plain_lines(s, 0);
        lemma_plain_further_lines(text::lines(s), text::lines(s).len());
    }
}

proof fn lemma_plain_further_lines(lines: Seq<Seq<char>>, n: nat)
    requires
        forall|i: int| 0 <= i < lines.len() ==> plain(#[trigger] lines[i]),
    ensures
        plain(report::further_lines(lines, n, report::palette(false))),
    decreases n,
{
    broadcast use group_plain;
    lemma_plain_literals();
    if n > 1 && n <= lines.len() {
        lemma_plain_further_lines(lines, (n - 1) as nat);
    }
}

proof fn lemma_plain_finding_text(f: FindingView, sources: Map<Seq<char>, Seq<Seq<char>>>)
    requires
        plain_in(f, sources),
    ensures
        plain(report::finding_text(f, sources, report::palette(false))),
{
    broadcast use group_plain;
    lemma_plain_literals();
    let c = report::palette(false);
    let raw = report::quoted_line(f, sources);
    let expr = report::expression(f);
    lemma_plain_title(f.kind);
    lemma_plain_citation(f.kind);
    lemma_plain_expression(f);
    lemma_plain_closing(f.kind.citation());
    assert(plain(raw));
    lemma_plain_trim_start(expr);
    text::lemma_find_within(raw, text::trim_start(expr));
    assert(plain(report::highlighted(raw, expr, c.sev_fg(f.severity), c.reset)));
    assert(plain(report::heading(f, c)));
    assert(plain(report::location(f, c)));
    assert(plain(report::source_row(f, raw, c)));
    assert(plain(report::caret_row(f, raw, c)));
}

proof fn lemma_plain_findings(findings: Seq<FindingView>, sources: Map<Seq<char>, Seq<Seq<char>>>)
    requires
        forall|i: int| 0 <= i < findings.len() ==> plain_in(#[trigger] findings[i], sources),
    ensures
        plain(report::findings_text(findings, sources, report::palette(false))),
    decreases findings.len(),
{
    broadcast use group_plain;
    lemma_plain_literals();
    if findings.len() > 0 {
        let rest = findings.drop_last();
        assert forall|i: int| 0 <= i < rest.len() implies plain_in(#[trigger] rest[i], sources) by {
            assert(rest[i] == findings[i]);
        }
        assert(findings[findings.len() - 1] == findings.last());
        lemma_plain_findings(rest, sources);
        lemma_plain_finding_text(findings.last(), sources);
    }
}

/// Without colour a report holds no escape code, unless a finding does, or a source line
/// that it quotes.
pub proof fn report_without_color_has_no_escape_codes(
    findings: Seq<FindingView>,
    sources: Map<Seq<char>, Seq<Seq<char>>>,
)
    requires
        forall|i: int| 0 <= i < findings.len() ==> plain_in(#[trigger] findings[i], sources),
    ensures
        plain(report::report_text(findings, false, sources)),
{
    broadcast use group_plain;
    lemma_plain_literals();
    lemma_plain_findings(findings, sources);
}

/// With colour a report holds escape codes.
pub proof fn report_with_color_has_escape_codes(
    findings: Seq<FindingView>,
    sources: Map<Seq<char>, Seq<Seq<char>>>,
)
    ensures
        !plain(report::report_text(findings, true, sources)),
{
    broadcast use lemma_plain_concat;
    reveal_strlit("\x1b[0m");
    assert("\x1b[0m"@[0] == '\x1b');
    assert(!plain(report::palette(true).reset));
}

proof fn lemma_plain_notes(notes: Seq<NotedView>, sources: Map<Seq<char>, Seq<Seq<char>>>)
    requires
        forall|i: int| 0 <= i < notes.len() ==> plain_note_in(#[trigger] notes[i], sources),
    ensures
        plain(report::note_texts(notes, sources, report::palette(false))),
    decreases notes.len(),
{
    broadcast use group_plain;
    lemma_plain_literals();
    if notes.len() > 0 {
        let rest = notes.drop_last();
        let last = notes.last();
        assert forall|i: int| 0 <= i < rest.len() implies plain_note_in(#[trigger] rest[i], sources) by {
            assert(rest[i] == notes[i]);
        }
        assert(notes[notes.len() - 1] == last);
        lemma_plain_notes(rest, sources);
        lemma_plain_message(last.note);
        assert(plain(report::note_text(last, sources, report::palette(false))));
    }
}

/// Without colour a report of notes holds no escape code, unless a note does, or a source line
/// that it quotes.
pub proof fn notes_without_color_have_no_escape_codes(
    notes: Seq<NotedView>,
    sources: Map<Seq<char>, Seq<Seq<char>>>,
)
    requires
        forall|i: int| 0 <= i < notes.len() ==> plain_note_in(#[trigger] notes[i], sources),
    ensures
        plain(report::notes_report(notes, false, sources)),
{
    broadcast use group_plain;
    lemma_plain_literals();
    lemma_plain_notes(notes, sources);
}

// ── The summary ──────────────────────────────────────────────────────────────

/// Every finding is counted once, as an error or as a warning.
pub proof fn counts_add_up(findings: Seq<FindingView>)
    ensures
        report::count_of(findings, Severity::Error) + report::count_of(findings, Severity::Warning) == findings.len(),
    decreases findings.len(),
{
    if findings.len() > 0 {
        counts_add_up(findings.drop_last());
    }
}

/// A report of no findings says so, and nothing else.
pub proof fn empty_report_says_no_findings(sources: Map<Seq<char>, Seq<Seq<char>>>)
    ensures
        report::report_text(Seq::empty(), false, sources) == "\n "@ + " ✓ no findings "@ + "\n\n"@,
{
    reveal_strlit("");
    assert(report::report_text(Seq::empty(), false, sources) =~= "\n "@ + " ✓ no findings "@ + "\n\n"@);
}

// ── Nothing is left out ──────────────────────────────────────────────────────

/// Whether a text stands in another one.
pub open spec fn stands_in(part: Seq<char>, whole: Seq<char>) -> bool {
    exists|before: Seq<char>, after: Seq<char>| whole == #[trigger] (before + part + after)
}

proof fn lemma_stands_in_more(part: Seq<char>, whole: Seq<char>, before: Seq<char>, after: Seq<char>)
    requires
        stands_in(part, whole),
    ensures
        stands_in(part, before + whole + after),
{
    let (a, b) = choose|a: Seq<char>, b: Seq<char>| whole == #[trigger] (a + part + b);
    assert(before + whole + after =~= (before + a) + part + (b + after));
}

proof fn lemma_finding_shown(
    findings: Seq<FindingView>,
    sources: Map<Seq<char>, Seq<Seq<char>>>,
    c: PaletteView,
    i: int,
)
    requires
        0 <= i < findings.len(),
    ensures
        stands_in(
            report::finding_text(findings[i], sources, c),
            report::findings_text(findings, sources, c),
        ),
    decreases findings.len(),
{
    let part = report::finding_text(findings[i], sources, c);
    let whole = report::findings_text(findings, sources, c);
    if findings.len() == 1 {
        assert(whole =~= Seq::<char>::empty() + part + Seq::<char>::empty());
    } else if i == findings.len() - 1 {
        let before = report::findings_text(findings.drop_last(), sources, c) + report::separator_line(c);
        assert(whole =~= before + part + Seq::<char>::empty());
    } else {
        let rest = findings.drop_last();
        assert(rest[i] == findings[i]);
        lemma_finding_shown(rest, sources, c, i);
        let inner = report::findings_text(rest, sources, c);
        let after = report::separator_line(c) + report::finding_text(findings.last(), sources, c);
        lemma_stands_in_more(part, inner, Seq::empty(), after);
        assert(whole =~= Seq::<char>::empty() + inner + after);
    }
}

/// A report shows every finding.
pub proof fn report_shows_every_finding(
    findings: Seq<FindingView>,
    color: bool,
    sources: Map<Seq<char>, Seq<Seq<char>>>,
    i: int,
)
    requires
        0 <= i < findings.len(),
    ensures
        stands_in(
            report::finding_text(findings[i], sources, report::palette(color)),
            report::report_text(findings, color, sources),
        ),
{
    let c = report::palette(color);
    lemma_finding_shown(findings, sources, c, i);
    let part = report::finding_text(findings[i], sources, c);
    let inner = report::findings_text(findings, sources, c);
    lemma_stands_in_more(part, inner, Seq::empty(), report::summary(findings, c));
    assert(report::report_text(findings, color, sources) =~= Seq::<char>::empty() + inner + report::summary(
        findings,
        c,
    ));
}

// ── Colour adds nothing but escape codes ─────────────────────────────────────

/// A text without its escape codes, each of which goes from the escape character to the
/// next `m`; and whether the text ends inside of one.
pub open spec fn uncolored(s: Seq<char>) -> (Seq<char>, bool)
    decreases s.len(),
{
    if s.len() == 0 {
        (Seq::empty(), false)
    } else {
        let (out, inside) = uncolored(s.drop_last());
        if inside {
            (out, s.last() != 'm')
        } else if s.last() == '\x1b' {
            (out, true)
        } else {
            (out.push(s.last()), false)
        }
    }
}

/// Whether `colored` is `bare` with whole escape codes in it.
pub open spec fn colors(colored: Seq<char>, bare: Seq<char>) -> bool {
    uncolored(colored) == (bare, false)
}

broadcast proof fn lemma_colors_concat(a: Seq<char>, b: Seq<char>, x: Seq<char>, y: Seq<char>)
    ensures
        colors(a, x) && colors(b, y) ==> #[trigger] colors(a + b, x + y),
{
    if colors(a, x) && colors(b, y) {
        lemma_uncolored_concat(a, b);
    }
}

proof fn lemma_uncolored_concat(a: Seq<char>, b: Seq<char>)
    requires
        !uncolored(a).1,
    ensures
        uncolored(a + b) == (uncolored(a).0 + uncolored(b).0, uncolored(b).1),
    decreases b.len(),
{
    if b.len() == 0 {
        assert(a + b =~= a);
        assert(uncolored(a).0 + Seq::<char>::empty() =~= uncolored(a).0);
    } else {
        assert((a + b).drop_last() =~= a + b.drop_last());
        assert((a + b).last() == b.last());
        lemma_uncolored_concat(a, b.drop_last());
        let (out, inside) = uncolored(b.drop_last());
        assert((uncolored(a).0 + out).push(b.last()) =~= uncolored(a).0 + out.push(b.last()));
    }
}

broadcast proof fn lemma_colors_plain(s: Seq<char>)
    ensures
        plain(s) ==> #[trigger] colors(s, s),
    decreases s.len(),
{
    if plain(s) && s.len() > 0 {
        let rest = s.drop_last();
        assert forall|i: int| 0 <= i < rest.len() implies #[trigger] rest[i] != '\x1b' by {
            assert(rest[i] == s[i]);
        }
        lemma_colors_plain(rest);
        assert(s[s.len() - 1] == s.last());
        assert(rest.push(s.last()) =~= s);
    } else if s.len() == 0 {
        assert(s =~= Seq::<char>::empty());
    }
}

broadcast group group_colors {
    lemma_colors_concat,
    lemma_colors_plain,
    group_plain,
}

/// An escape code, one character after the other.
proof fn lemma_code(s: Seq<char>)
    requires
        s.len() >= 2,
        s[0] == '\x1b',
        s.last() == 'm',
        forall|i: int| 1 <= i < s.len() - 1 ==> #[trigger] s[i] != 'm',
    ensures
        colors(s, ""@),
{
    lemma_open_code(s.drop_last());
    reveal_strlit("");
    assert(""@ =~= Seq::<char>::empty());
}

proof fn lemma_open_code(s: Seq<char>)
    requires
        s.len() >= 1,
        s[0] == '\x1b',
        forall|i: int| 1 <= i < s.len() ==> #[trigger] s[i] != 'm',
    ensures
        uncolored(s) == (Seq::<char>::empty(), true),
    decreases s.len(),
{
    if s.len() == 1 {
        assert(s.drop_last() =~= Seq::<char>::empty());
        assert(uncolored(s.drop_last()) == (Seq::<char>::empty(), false));
        assert(s.last() == s[0]);
    } else {
        let rest = s.drop_last();
        assert forall|i: int| 1 <= i < rest.len() implies #[trigger] rest[i] != 'm' by {
            assert(rest[i] == s[i]);
        }
        lemma_open_code(rest);
        assert(s.last() == s[s.len() - 1]);
    }
}

proof fn lemma_palette()
    ensures
        ({
            let c = report::palette(true);
            let d = report::palette(false);
            &&& colors(c.reset, d.reset)
            &&& colors(c.bold, d.bold)
            &&& colors(c.dim, d.dim)
            &&& colors(c.bold_white, d.bold_white)
            &&& colors(c.bold_red, d.bold_red)
            &&& colors(c.bold_yellow, d.bold_yellow)
            &&& colors(c.bold_cyan, d.bold_cyan)
            &&& colors(c.cyan, d.cyan)
            &&& colors(c.rev_red, d.rev_red)
            &&& colors(c.rev_yellow, d.rev_yellow)
            &&& colors(c.rev_green, d.rev_green)
        }),
{
    reveal_strlit("\x1b[0m");
    reveal_strlit("\x1b[1m");
    reveal_strlit("\x1b[2m");
    reveal_strlit("\x1b[1;37m");
    reveal_strlit("\x1b[1;31m");
    reveal_strlit("\x1b[1;33m");
    reveal_strlit("\x1b[1;36m");
    reveal_strlit("\x1b[36m");
    reveal_strlit("\x1b[7;31m");
    reveal_strlit("\x1b[7;33m");
    reveal_strlit("\x1b[7;32m");
    lemma_code("\x1b[0m"@);
    lemma_code("\x1b[1m"@);
    lemma_code("\x1b[2m"@);
    lemma_code("\x1b[1;37m"@);
    lemma_code("\x1b[1;31m"@);
    lemma_code("\x1b[1;33m"@);
    lemma_code("\x1b[1;36m"@);
    lemma_code("\x1b[36m"@);
    lemma_code("\x1b[7;31m"@);
    lemma_code("\x1b[7;33m"@);
    lemma_code("\x1b[7;32m"@);
}

proof fn lemma_colors_further(lines: Seq<Seq<char>>, n: nat)
    requires
        forall|i: int| 0 <= i < lines.len() ==> plain(#[trigger] lines[i]),
    ensures
        colors(
            report::further_lines(lines, n, report::palette(true)),
            report::further_lines(lines, n, report::palette(false)),
        ),
    decreases n,
{
    broadcast use group_colors;
    lemma_plain_literals();
    lemma_palette();
    if n > 1 && n <= lines.len() {
        lemma_colors_further(lines, (n - 1) as nat);
    }
}

proof fn lemma_colors_closing(citation: Option<Seq<char>>)
    requires
        citation matches Some(s) ==> plain(s),
    ensures
        colors(
            report::closing(citation, report::palette(true)),
            report::closing(citation, report::palette(false)),
        ),
{
    broadcast use group_colors;
    lemma_plain_literals();
    lemma_palette();
    if let Some(s) = citation {
        lemma_plain_lines(s, 0);
        lemma_colors_further(text::lines(s), text::lines(s).len());
    }
}

proof fn lemma_colors_finding(f: FindingView, sources: Map<Seq<char>, Seq<Seq<char>>>)
    requires
        plain_in(f, sources),
    ensures
        colors(
            report::finding_text(f, sources, report::palette(true)),
            report::finding_text(f, sources, report::palette(false)),
        ),
{
    broadcast use group_colors;
    lemma_plain_literals();
    lemma_palette();
    let c = report::palette(true);
    let d = report::palette(false);
    let raw = report::quoted_line(f, sources);
    let expr = report::expression(f);
    lemma_plain_title(f.kind);
    lemma_plain_citation(f.kind);
    lemma_plain_expression(f);
    lemma_colors_closing(f.kind.citation());
    assert(plain(raw));
    lemma_plain_trim_start(expr);
    text::lemma_find_within(raw, text::trim_start(expr));
    assert(colors(c.sev_fg(f.severity), d.sev_fg(f.severity)));
    assert(colors(c.sev_rev(f.severity), d.sev_rev(f.severity)));
    assert(colors(
        report::highlighted(raw, expr, c.sev_fg(f.severity), c.reset),
        report::highlighted(raw, expr, d.sev_fg(f.severity), d.reset),
    ));
    assert(colors(report::heading(f, c), report::heading(f, d)));
    assert(colors(report::location(f, c), report::location(f, d)));
    assert(colors(report::bar(c), report::bar(d)));
    assert(colors(report::source_row(f, raw, c), report::source_row(f, raw, d)));
    assert(colors(report::caret_row(f, raw, c), report::caret_row(f, raw, d)));
}

proof fn lemma_colors_findings(findings: Seq<FindingView>, sources: Map<Seq<char>, Seq<Seq<char>>>)
    requires
        forall|i: int| 0 <= i < findings.len() ==> plain_in(#[trigger] findings[i], sources),
    ensures
        colors(
            report::findings_text(findings, sources, report::palette(true)),
            report::findings_text(findings, sources, report::palette(false)),
        ),
    decreases findings.len(),
{
    broadcast use group_colors;
    lemma_plain_literals();
    lemma_palette();
    if findings.len() > 0 {
        let rest = findings.drop_last();
        assert forall|i: int| 0 <= i < rest.len() implies plain_in(#[trigger] rest[i], sources) by {
            assert(rest[i] == findings[i]);
        }
        assert(findings[findings.len() - 1] == findings.last());
        lemma_colors_findings(rest, sources);
        lemma_colors_finding(findings.last(), sources);
        assert(colors(report::separator_line(report::palette(true)), report::separator_line(report::palette(false))));
    }
}

/// The coloured report without its escape codes is the plain one, unless a finding, or
/// a source line that it quotes, holds an escape code: colour changes nothing else.
pub proof fn color_adds_only_escape_codes(
    findings: Seq<FindingView>,
    sources: Map<Seq<char>, Seq<Seq<char>>>,
)
    requires
        forall|i: int| 0 <= i < findings.len() ==> plain_in(#[trigger] findings[i], sources),
    ensures
        uncolored(report::report_text(findings, true, sources)) == (report::report_text(findings, false, sources), false),
{
    broadcast use group_colors;
    lemma_plain_literals();
    lemma_palette();
    lemma_colors_findings(findings, sources);
    let c = report::palette(true);
    let d = report::palette(false);
    let errors = report::count_of(findings, Severity::Error);
    let warnings = report::count_of(findings, Severity::Warning);
    assert(colors(report::error_badge(errors, c), report::error_badge(errors, d)));
    assert(colors(report::warning_badge(warnings, c), report::warning_badge(warnings, d)));
    assert(colors(report::summary(findings, c), report::summary(findings, d)));
    assert(colors(report::report_text(findings, true, sources), report::report_text(findings, false, sources)));
}

proof fn lemma_colors_notes(notes: Seq<NotedView>, sources: Map<Seq<char>, Seq<Seq<char>>>)
    requires
        forall|i: int| 0 <= i < notes.len() ==> plain_note_in(#[trigger] notes[i], sources),
    ensures
        colors(
            report::note_texts(notes, sources, report::palette(true)),
            report::note_texts(notes, sources, report::palette(false)),
        ),
    decreases notes.len(),
{
    broadcast use group_colors;
    lemma_plain_literals();
    lemma_palette();
    if notes.len() > 0 {
        let rest = notes.drop_last();
        let last = notes.last();
        assert forall|i: int| 0 <= i < rest.len() implies plain_note_in(#[trigger] rest[i], sources) by {
            assert(rest[i] == notes[i]);
        }
        assert(notes[notes.len() - 1] == last);
        lemma_colors_notes(rest, sources);
        lemma_plain_message(last.note);
        assert(colors(
            report::note_text(last, sources, report::palette(true)),
            report::note_text(last, sources, report::palette(false)),
        ));
    }
}

/// The same holds of the report of the notes.
pub proof fn color_adds_only_escape_codes_to_notes(
    notes: Seq<NotedView>,
    sources: Map<Seq<char>, Seq<Seq<char>>>,
)
    requires
        forall|i: int| 0 <= i < notes.len() ==> plain_note_in(#[trigger] notes[i], sources),
    ensures
        uncolored(report::notes_report(notes, true, sources)) == (report::notes_report(notes, false, sources), false),
{
    broadcast use group_colors;
    lemma_plain_literals();
    lemma_palette();
    lemma_colors_notes(notes, sources);
    assert(colors(report::notes_report(notes, true, sources), report::notes_report(notes, false, sources)));
}

} // verus!
