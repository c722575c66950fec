//! The terminal report.

use vstd::prelude::*;

use vstd::hash_map::StringHashMap;

use crate::finding::{Finding, FindingView, Noted, NotedView, Severity};
use crate::text;

verus! {

broadcast use crate::text::group_views;

// ── Colours ──────────────────────────────────────────────────────────────────

/// The escape codes that the report is coloured with; all empty without colour.
pub struct Palette {
    pub reset: &'static str,
    pub bold: &'static str,
    pub dim: &'static str,
    pub bold_white: &'static str,
    pub bold_red: &'static str,
    pub bold_yellow: &'static str,
    pub bold_cyan: &'static str,
    pub cyan: &'static str,
    pub rev_red: &'static str,
    pub rev_yellow: &'static str,
    pub rev_green: &'static str,
}

pub struct PaletteView {
    pub reset: Seq<char>,
    pub bold: Seq<char>,
    pub dim: Seq<char>,
    pub bold_white: Seq<char>,
    pub bold_red: Seq<char>,
    pub bold_yellow: Seq<char>,
    pub bold_cyan: Seq<char>,
    pub cyan: Seq<char>,
    pub rev_red: Seq<char>,
    pub rev_yellow: Seq<char>,
    pub rev_green: Seq<char>,
}

impl View for Palette {
    type V = PaletteView;

    open spec fn view(&self) -> PaletteView {
        PaletteView {
            reset: self.reset@,
            bold: self.bold@,
            dim: self.dim@,
            bold_white: self.bold_white@,
            bold_red: self.bold_red@,
            bold_yellow: self.bold_yellow@,
            bold_cyan: self.bold_cyan@,
            cyan: self.cyan@,
            rev_red: self.rev_red@,
            rev_yellow: self.rev_yellow@,
            rev_green: self.rev_green@,
        }
    }
}

/// The palette with or without colour.
pub open spec fn palette(color: bool) -> PaletteView {
    if color {
        PaletteView {
            reset: "\x1b[0m"@,
            bold: "\x1b[1m"@,
            dim: "\x1b[2m"@,
            bold_white: "\x1b[1;37m"@,
            bold_red: "\x1b[1;31m"@,
            bold_yellow: "\x1b[1;33m"@,
            bold_cyan: "\x1b[1;36m"@,
            cyan: "\x1b[36m"@,
            rev_red: "\x1b[7;31m"@,
            rev_yellow: "\x1b[7;33m"@,
            rev_green: "\x1b[7;32m"@,
        }
    } else {
        PaletteView {
            reset: ""@,
            bold: ""@,
            dim: ""@,
            bold_white: ""@,
            bold_red: ""@,
            bold_yellow: ""@,
            bold_cyan: ""@,
            cyan: ""@,
            rev_red: ""@,
            rev_yellow: ""@,
            rev_green: ""@,
        }
    }
}

impl PaletteView {
    pub open spec fn sev_fg(self, s: Severity) -> Seq<char> {
        match s {
            Severity::Error => self.bold_red,
            Severity::Warning => self.bold_yellow,
        }
    }

    pub open spec fn sev_rev(self, s: Severity) -> Seq<char> {
        match s {
            Severity::Error => self.rev_red,
            Severity::Warning => self.rev_yellow,
        }
    }
}

impl Palette {
    pub fn new(color: bool) -> (r: Palette)
        ensures
            r@ == palette(color),
    {
        if color {
            Palette {
                reset: "\x1b[0m",
                bold: "\x1b[1m",
                dim: "\x1b[2m",
                bold_white: "\x1b[1;37m",
                bold_red: "\x1b[1;31m",
                bold_yellow: "\x1b[1;33m",
                bold_cyan: "\x1b[1;36m",
                cyan: "\x1b[36m",
                rev_red: "\x1b[7;31m",
                rev_yellow: "\x1b[7;33m",
                rev_green: "\x1b[7;32m",
            }
        } else {
            Palette {
                reset: "",
                bold: "",
                dim: "",
                bold_white: "",
                bold_red: "",
                bold_yellow: "",
                bold_cyan: "",
                cyan: "",
                rev_red: "",
                rev_yellow: "",
                rev_green: "",
            }
        }
    }

    /// The colour of text of that severity.
    pub fn sev_fg(&self, s: Severity) -> (r: &'static str)
        ensures
            r@ == self@.sev_fg(s),
    {
        match s {
            Severity::Error => self.bold_red,
            Severity::Warning => self.bold_yellow,
        }
    }

    /// The colour of the badge of that severity.
    pub fn sev_rev(&self, s: Severity) -> (r: &'static str)
        ensures
            r@ == self@.sev_rev(s),
    {
        match s {
            Severity::Error => self.rev_red,
            Severity::Warning => self.rev_yellow,
        }
    }
}

// ── Source lines ─────────────────────────────────────────────────────────────

/// The lines of the source files that the report quotes from, by path. A file that
/// could not be read is left out.
pub struct SourceCache {
    files: StringHashMap<Vec<String>>,
}

impl View for SourceCache {
    type V = Map<Seq<char>, Seq<Seq<char>>>;

    closed spec fn view(&self) -> Map<Seq<char>, Seq<Seq<char>>> {
        self.files@.map_values(|lines: Vec<String>| text::views(lines@))
    }
}

/// The line `line`, counted from one, of the source file `file`.
pub open spec fn source_line(
    sources: Map<Seq<char>, Seq<Seq<char>>>,
    file: Seq<char>,
    line: usize,
) -> Option<Seq<char>> {
    let index: int = if line == 0 {
        0
    } else {
        line - 1
    };
    if sources.contains_key(file) && index < sources[file].len() {
        Some(sources[file][index])
    } else {
        None
    }
}

impl SourceCache {
    /// A cache without files.
    pub fn new() -> (r: SourceCache)
        ensures
            r@ == Map::<Seq<char>, Seq<Seq<char>>>::empty(),
    {
        let r = SourceCache { files: StringHashMap::new() };
        assert(r@ =~= Map::<Seq<char>, Seq<Seq<char>>>::empty());
        r
    }

    /// Adds the text of a file.
    pub fn add_file(&mut self, file: &str, source: &str)
        ensures
            final(self)@ == old(self)@.insert(file@, text::lines(source@)),
    {
        self.files.insert(file.to_owned(), text::lines_text(source));
        assert(self@ =~= old(self)@.insert(file@, text::lines(source@)));
    }

    /// The line `line`, counted from one, of a file.
    pub fn line(&self, file: &str, line: usize) -> (r: Option<String>)
        ensures
            text::option_view(r) == source_line(self@, file@, line),
    {
        match self.files.get(file) {
            Some(lines) => {
                let index: usize = if line == 0 {
                    0
                } else {
                    line - 1
                };
                assert(self@[file@] == text::views(lines@));
                if index < lines.len() {
                    Some(lines[index].clone())
                } else {
                    None
                }
            },
            None => None,
        }
    }
}

// ── One finding ──────────────────────────────────────────────────────────────

/// The source expression that a finding is about.
pub open spec fn expression(f: FindingView) -> Seq<char> {
    if f.raw_op.len() == 0 {
        f.raw_lhs
    } else {
        f.raw_lhs + " "@ + f.raw_op + " "@ + f.raw_rhs
    }
}

/// `raw` with the first occurrence of `expr` in colour.
pub open spec fn highlighted(raw: Seq<char>, expr: Seq<char>, color: Seq<char>, reset: Seq<char>) -> Seq<char> {
    let needle = text::trim_start(expr);
    match text::find(raw, needle) {
        Some(pos) => raw.take(pos as int) + color + needle + reset + raw.skip((pos + needle.len()) as int),
        None => raw,
    }
}

/// The number of bytes of `raw` before the place that the carets point to: where the
/// expression is, or else where the line begins.
pub open spec fn caret_column(raw: Seq<char>, expr: Seq<char>) -> nat {
    match text::find(raw, text::trim_start(expr)) {
        Some(pos) => text::byte_len(raw.take(pos as int)),
        None => text::byte_len(text::leading_space(raw)),
    }
}

/// The number of carets: one for each byte of the expression, as far as the line goes,
/// and at least one.
pub open spec fn caret_count(raw: Seq<char>, expr: Seq<char>) -> nat {
    let rest: int = text::byte_len(raw) - caret_column(raw, expr);
    let n: int = if text::byte_len(expr) <= rest {
        text::byte_len(expr) as int
    } else {
        rest
    };
    if n < 1 {
        1
    } else {
        n as nat
    }
}

/// The width of the column of line numbers.
pub open spec fn number_width(line: usize) -> nat {
    if text::decimal(line as nat).len() < 2 {
        2
    } else {
        text::decimal(line as nat).len()
    }
}

/// The source line that a finding quotes: the one in the file, or else the expression.
pub open spec fn quoted_line(f: FindingView, sources: Map<Seq<char>, Seq<Seq<char>>>) -> Seq<char> {
    match source_line(sources, f.file, f.line) {
        Some(line) => line,
        None => "    "@ + expression(f),
    }
}

pub open spec fn severity_icon(s: Severity) -> Seq<char> {
    match s {
        Severity::Error => "✗"@,
        Severity::Warning => "⚠"@,
    }
}

pub open spec fn severity_name(s: Severity) -> Seq<char> {
    match s {
        Severity::Error => "error"@,
        Severity::Warning => "warning"@,
    }
}

pub open spec fn severity_caret(s: Severity) -> char {
    match s {
        Severity::Error => '^',
        Severity::Warning => '~',
    }
}

/// The badge with the severity and the rule, and the headline.
pub open spec fn heading(f: FindingView, c: PaletteView) -> Seq<char> {
    " "@ + c.sev_rev(f.severity) + " "@ + severity_icon(f.severity) + " "@ + severity_name(f.severity) + " "@ + c.reset
        + "  "@ + c.dim + f.kind.rule_id() + c.reset + "\n "@ + c.bold_white + f.kind.title() + c.reset + "\n\n"@
}

/// The file and the line.
pub open spec fn location(f: FindingView, c: PaletteView) -> Seq<char> {
    "  "@ + c.bold_cyan + "╭─"@ + c.reset + " "@ + c.bold + f.file + c.dim + " · line "@ + text::decimal(
        f.line as nat,
    ) + c.reset + "\n"@
}

/// An empty line of the box.
pub open spec fn bar(c: PaletteView) -> Seq<char> {
    "  "@ + c.bold_cyan + "│"@ + c.reset + "\n"@
}

/// The source line with its number, the expression in colour.
pub open spec fn source_row(f: FindingView, raw: Seq<char>, c: PaletteView) -> Seq<char> {
    "  "@ + c.bold_cyan + "│"@ + c.reset + "  "@ + c.dim + text::pad_left(
        text::decimal(f.line as nat),
        number_width(f.line),
        ' ',
    ) + c.reset + "  "@ + c.bold_cyan + "│"@ + c.reset + "  "@ + highlighted(
        raw,
        expression(f),
        c.sev_fg(f.severity),
        c.reset,
    ) + "\n"@
}

/// The carets under the expression.
pub open spec fn caret_row(f: FindingView, raw: Seq<char>, c: PaletteView) -> Seq<char> {
    "  "@ + c.bold_cyan + "│"@ + c.reset + "  "@ + text::fill(' ', number_width(f.line)) + "  "@ + c.bold_cyan + "│"@
        + c.reset + "  "@ + text::fill(' ', caret_column(raw, expression(f))) + c.sev_fg(f.severity) + c.bold
        + text::fill(severity_caret(f.severity), caret_count(raw, expression(f))) + c.reset + "\n"@
}

/// The lines of the evidence after the first one.
pub open spec fn further_lines(lines: Seq<Seq<char>>, n: nat, c: PaletteView) -> Seq<char>
    decreases n,
{
    if n <= 1 || n > lines.len() {
        Seq::empty()
    } else {
        further_lines(lines, (n - 1) as nat, c) + "       "@ + c.cyan + lines[n - 1] + c.reset + "\n"@
    }
}

/// The end of the box: the evidence, or just the corner.
pub open spec fn closing(citation: Option<Seq<char>>, c: PaletteView) -> Seq<char> {
    match citation {
        Some(citation) => {
            let lines = text::lines(citation);
            let first = if lines.len() == 0 {
                Seq::empty()
            } else {
                "  "@ + c.bold_cyan + "╰─"@ + c.reset + " "@ + c.cyan + lines[0] + c.reset + "\n"@
            };
            bar(c) + first + further_lines(lines, lines.len(), c)
        },
        None => "  "@ + c.bold_cyan + "╰──"@ + c.reset + "\n"@,
    }
}

/// A finding, with the source line that it is about and the evidence for it.
pub open spec fn finding_text(
    f: FindingView,
    sources: Map<Seq<char>, Seq<Seq<char>>>,
    c: PaletteView,
) -> Seq<char> {
    let raw = quoted_line(f, sources);
    heading(f, c) + location(f, c) + bar(c) + source_row(f, raw, c) + caret_row(f, raw, c) + closing(
        f.kind.citation(),
        c,
    )
}

/// The number of decimal digits of `n`.
pub fn digits(n: usize) -> (r: usize)
    ensures
        r == text::decimal(n as nat).len(),
{
    text::decimal_text(n as u64).as_str().unicode_len()
}

/// The source expression that a finding is about.
pub fn expr_text(f: &Finding) -> (r: String)
    ensures
        r@ == expression(f@),
{
    if f.raw_op.unicode_len() == 0 {
        f.raw_lhs.clone()
    } else {
        f.raw_lhs.clone().concat(" ").concat(f.raw_op).concat(" ").concat(f.raw_rhs.as_str())
    }
}

/// Wraps the part of `raw` that matches `expr` in colour codes, leaving the rest
/// unchanged.
pub fn colorize_expr(raw: &str, expr: &str, color: &'static str, c: &Palette) -> (r: String)
    ensures
        r@ == highlighted(raw@, expr@, color@, c@.reset),
{
    let needle = text::split_leading_space(expr).1;
    match text::find_text(raw, needle.as_str()) {
        Some(pos) => {
            proof {
                text::lemma_find_within(raw@, needle@);
            }
            let n: usize = raw.unicode_len();
            let end: usize = pos + needle.as_str().unicode_len();
            let before = raw.substring_char(0, pos);
            let after = raw.substring_char(end, n);
            assert(before@ =~= raw@.take(pos as int));
            assert(after@ =~= raw@.skip(end as int));
            before.to_owned().concat(color).concat(needle.as_str()).concat(c.reset).concat(after)
        },
        None => raw.to_owned(),
    }
}

fn caret_column_of(raw: &str, expr: &str) -> (r: usize)
    ensures
        r == caret_column(raw@, expr@),
{
    let needle = text::split_leading_space(expr).1;
    match text::find_text(raw, needle.as_str()) {
        Some(pos) => {
            proof {
                text::lemma_find_within(raw@, needle@);
            }
            let before = raw.substring_char(0, pos);
            assert(before@ =~= raw@.take(pos as int));
            text::byte_len_of(before)
        },
        None => {
            text::byte_len_of(text::split_leading_space(raw).0.as_str())
        },
    }
}

fn caret_count_of(raw: &str, expr: &str) -> (r: usize)
    ensures
        r == caret_count(raw@, expr@),
{
    let column: usize = caret_column_of(raw, expr);
    let total: usize = text::byte_len_of(raw);
    let len: usize = text::byte_len_of(expr);
    let rest: usize = if column <= total {
        total - column
    } else {
        0
    };
    let n: usize = if len <= rest {
        len
    } else {
        rest
    };
    if n < 1 {
        1
    } else {
        n
    }
}

fn number_width_of(line: usize) -> (r: usize)
    ensures
        r == number_width(line),
{
    let n: usize = digits(line);
    if n < 2 {
        2
    } else {
        n
    }
}

fn heading_text(f: &Finding, c: &Palette) -> (r: String)
    ensures
        r@ == heading(f@, c@),
{
    let (icon, name) = match f.severity {
        Severity::Error => ("✗", "error"),
        Severity::Warning => ("⚠", "warning"),
    };
    " ".to_owned().concat(c.sev_rev(f.severity)).concat(" ").concat(icon).concat(" ").concat(name).concat(" ").concat(
        c.reset,
    ).concat("  ").concat(c.dim).concat(f.kind.rule_id()).concat(c.reset).concat("\n ").concat(c.bold_white).concat(
        f.kind.title().as_str(),
    ).concat(c.reset).concat("\n\n")
}

fn location_text(f: &Finding, c: &Palette) -> (r: String)
    ensures
        r@ == location(f@, c@),
{
    "  ".to_owned().concat(c.bold_cyan).concat("╭─").concat(c.reset).concat(" ").concat(c.bold).concat(
        f.file.as_str(),
    ).concat(c.dim).concat(" · line ").concat(text::decimal_text(f.line as u64).as_str()).concat(c.reset).concat("\n")
}

fn bar_text(c: &Palette) -> (r: String)
    ensures
        r@ == bar(c@),
{
    "  ".to_owned().concat(c.bold_cyan).concat("│").concat(c.reset).concat("\n")
}

fn source_row_text(f: &Finding, raw: &str, c: &Palette) -> (r: String)
    ensures
        r@ == source_row(f@, raw@, c@),
{
    let number = text::pad_left_text(text::decimal_text(f.line as u64).as_str(), number_width_of(f.line), ' ');
    let source = colorize_expr(raw, expr_text(f).as_str(), c.sev_fg(f.severity), c);
    "  ".to_owned().concat(c.bold_cyan).concat("│").concat(c.reset).concat("  ").concat(c.dim).concat(
        number.as_str(),
    ).concat(c.reset).concat("  ").concat(c.bold_cyan).concat("│").concat(c.reset).concat("  ").concat(
        source.as_str(),
    ).concat("\n")
}

fn caret_row_text(f: &Finding, raw: &str, c: &Palette) -> (r: String)
    ensures
        r@ == caret_row(f@, raw@, c@),
{
    let expr = expr_text(f);
    let caret = match f.severity {
        Severity::Error => '^',
        Severity::Warning => '~',
    };
    let margin = text::fill_text(' ', number_width_of(f.line));
    let pad = text::fill_text(' ', caret_column_of(raw, expr.as_str()));
    let carets = text::fill_text(caret, caret_count_of(raw, expr.as_str()));
    "  ".to_owned().concat(c.bold_cyan).concat("│").concat(c.reset).concat("  ").concat(margin.as_str()).concat(
        "  ",
    ).concat(c.bold_cyan).concat("│").concat(c.reset).concat("  ").concat(pad.as_str()).concat(
        c.sev_fg(f.severity),
    ).concat(c.bold).concat(carets.as_str()).concat(c.reset).concat("\n")
}

fn closing_text(citation: &Option<String>, c: &Palette) -> (r: String)
    ensures
        r@ == closing(text::option_view(*citation), c@),
{
    match citation {
        Some(citation) => {
            let lines = text::lines_text(citation.as_str());
            let ghost all = text::lines(citation@);
            let mut out = bar_text(c);
            if lines.len() == 0 {
                assert(out@ + Seq::<char>::empty() + Seq::<char>::empty() =~= out@);
                return out;
            }
            assert(all[0] == lines@[0]@);
            let first = "  ".to_owned().concat(c.bold_cyan).concat("╰─").concat(c.reset).concat(" ").concat(
                c.cyan,
            ).concat(lines[0].as_str()).concat(c.reset).concat("\n");
            out.append(first.as_str());
            let ghost start = out@;
            let mut i: usize = 1;
            assert(start + further_lines(all, 1, c@) =~= start);
            while i < lines.len()
                invariant
                    1 <= i <= lines@.len(),
                    all == text::views(lines@),
                    out@ == start + further_lines(all, i as nat, c@),
                decreases lines.len() - i,
            {
                assert(all[i as int] == lines@[i as int]@);
                out.append("       ");
                out.append(c.cyan);
                out.append(lines[i].as_str());
                out.append(c.reset);
                out.append("\n");
                i += 1;
                assert(out@ =~= start + further_lines(all, i as nat, c@));
            }
            out
        },
        None => "  ".to_owned().concat(c.bold_cyan).concat("╰──").concat(c.reset).concat("\n"),
    }
}

/// A finding: its headline, the source line that it is about with carets under the
/// expression, and the evidence for it.
pub fn render_finding(f: &Finding, src: &SourceCache, c: &Palette) -> (r: String)
    ensures
        r@ == finding_text(f@, src@, c@),
{
    let raw = match src.line(f.file.as_str(), f.line) {
        Some(line) => line,
        None => "    ".to_owned().concat(expr_text(f).as_str()),
    };
    heading_text(f, c).concat(location_text(f, c).as_str()).concat(bar_text(c).as_str()).concat(
        source_row_text(f, raw.as_str(), c).as_str(),
    ).concat(caret_row_text(f, raw.as_str(), c).as_str()).concat(
        closing_text(&f.kind.citation(), c).as_str(),
    )
}

// ── The report ───────────────────────────────────────────────────────────────

/// The rule between two findings.
pub open spec fn separator_line(c: PaletteView) -> Seq<char> {
    "\n  "@ + c.dim + text::fill('─', 60) + c.reset + "\n\n"@
}

/// The findings, with a rule between each two.
pub open spec fn findings_text(
    findings: Seq<FindingView>,
    sources: Map<Seq<char>, Seq<Seq<char>>>,
    c: PaletteView,
) -> Seq<char>
    decreases findings.len(),
{
    if findings.len() == 0 {
        Seq::empty()
    } else if findings.len() == 1 {
        finding_text(findings[0], sources, c)
    } else {
        findings_text(findings.drop_last(), sources, c) + separator_line(c) + finding_text(
            findings.last(),
            sources,
            c,
        )
    }
}

/// How many findings have that severity.
pub open spec fn count_of(findings: Seq<FindingView>, s: Severity) -> nat
    decreases findings.len(),
{
    if findings.len() == 0 {
        0
    } else {
        count_of(findings.drop_last(), s) + (if findings.last().severity == s {
            1nat
        } else {
            0nat
        })
    }
}

/// The plural ending that goes with the number `n`.
pub open spec fn plural(n: nat) -> Seq<char> {
    if n == 1 {
        ""@
    } else {
        "s"@
    }
}

pub open spec fn error_badge(n: nat, c: PaletteView) -> Seq<char> {
    c.rev_red + " ✗ "@ + text::decimal(n) + " error"@ + plural(n) + " "@ + c.reset
}

pub open spec fn warning_badge(n: nat, c: PaletteView) -> Seq<char> {
    c.rev_yellow + " ⚠ "@ + text::decimal(n) + " warning"@ + plural(n) + " "@ + c.reset
}

/// The last line of the report: how many errors and warnings there are.
pub open spec fn summary(findings: Seq<FindingView>, c: PaletteView) -> Seq<char> {
    let errors = count_of(findings, Severity::Error);
    let warnings = count_of(findings, Severity::Warning);
    if errors == 0 && warnings == 0 {
        "\n "@ + c.rev_green + " ✓ no findings "@ + c.reset + "\n\n"@
    } else {
        let badges = if warnings == 0 {
            error_badge(errors, c)
        } else if errors == 0 {
            warning_badge(warnings, c)
        } else {
            error_badge(errors, c) + "  "@ + warning_badge(warnings, c)
        };
        "\n  "@ + badges + "\n\n"@
    }
}

/// The report of the findings.
pub open spec fn report_text(
    findings: Seq<FindingView>,
    color: bool,
    sources: Map<Seq<char>, Seq<Seq<char>>>,
) -> Seq<char> {
    findings_text(findings, sources, palette(color)) + summary(findings, palette(color))
}

/// Renders the findings, each with the source line that it is about, and a summary.
/// The notes are rendered by `render_notes_text`.
pub fn render_text(findings: &[Finding], _notes: &[Noted], color: bool, src: &SourceCache) -> (r: String)
    ensures
        r@ == report_text(text::views(findings@), color, src@),
{
    let c = Palette::new(color);
    let ghost all = text::views(findings@);
    let mut out = String::new();
    let mut i: usize = 0;
    assert(all.take(0).len() == 0);
    while i < findings.len()
        invariant
            i <= findings@.len(),
            all == text::views(findings@),
            c@ == palette(color),
            out@ == findings_text(all.take(i as int), src@, c@),
        decreases findings.len() - i,
    {
        assert(all.take(i + 1).drop_last() =~= all.take(i as int));
        assert(all.take(i + 1).last() == findings@[i as int]@);
        let finding = render_finding(&findings[i], src, &c);
        if i > 0 {
            out.append(separator(&c).as_str());
            out.append(finding.as_str());
        } else {
            out = finding;
        }
        i += 1;
    }
    assert(all.take(all.len() as int) =~= all);
    out.concat(render_summary(findings, &c).as_str())
}

/// The rule between two findings.
pub fn separator(c: &Palette) -> (r: String)
    ensures
        r@ == separator_line(c@),
{
    "\n  ".to_owned().concat(c.dim).concat(text::fill_text('─', 60).as_str()).concat(c.reset).concat("\n\n")
}

fn count_severity(findings: &[Finding], s: Severity) -> (r: usize)
    ensures
        r == count_of(text::views(findings@), s),
{
    let ghost all = text::views(findings@);
    let mut n: usize = 0;
    let mut i: usize = 0;
    while i < findings.len()
        invariant
            i <= findings@.len(),
            all == text::views(findings@),
            n <= i,
            n == count_of(all.take(i as int), s),
        decreases findings.len() - i,
    {
        assert(all.take(i + 1).drop_last() =~= all.take(i as int));
        assert(all.take(i + 1).last() == findings@[i as int]@);
        if findings[i].severity == s {
            n += 1;
        }
        i += 1;
    }
    assert(all.take(all.len() as int) =~= all);
    n
}

fn plural_text(n: usize) -> (r: &'static str)
    ensures
        r@ == plural(n as nat),
{
    if n == 1 {
        ""
    } else {
        "s"
    }
}

/// How many errors and warnings there are.
pub fn render_summary(findings: &[Finding], c: &Palette) -> (r: String)
    ensures
        r@ == summary(text::views(findings@), c@),
{
    let errors: usize = count_severity(findings, Severity::Error);
    let warnings: usize = count_severity(findings, Severity::Warning);
    if errors == 0 && warnings == 0 {
        return "\n ".to_owned().concat(c.rev_green).concat(" ✓ no findings ").concat(c.reset).concat("\n\n");
    }
    let error_badge = c.rev_red.to_owned().concat(" ✗ ").concat(text::decimal_text(errors as u64).as_str()).concat(
        " error",
    ).concat(plural_text(errors)).concat(" ").concat(c.reset);
    let warning_badge = c.rev_yellow.to_owned().concat(" ⚠ ").concat(
        text::decimal_text(warnings as u64).as_str(),
    ).concat(" warning").concat(plural_text(warnings)).concat(" ").concat(c.reset);
    let badges = if warnings == 0 {
        error_badge
    } else if errors == 0 {
        warning_badge
    } else {
        error_badge.concat("  ").concat(warning_badge.as_str())
    };
    "\n  ".to_owned().concat(badges.as_str()).concat("\n\n")
}

// ── Notes ────────────────────────────────────────────────────────────────────

/// A note, with the source line that it is about where that is known.
pub open spec fn note_text(n: NotedView, sources: Map<Seq<char>, Seq<Seq<char>>>, c: PaletteView) -> Seq<char> {
    let head = "  "@ + c.bold_cyan + "·"@ + c.reset + " "@ + c.dim + n.note.message() + c.reset + "\n    "@ + c.dim
        + n.file + ":"@ + text::decimal(n.line as nat) + c.reset + "\n"@;
    let source = match source_line(sources, n.file, n.line) {
        Some(raw) => "    "@ + c.dim + text::pad_left(text::decimal(n.line as nat), number_width(n.line), ' ')
            + "  │  "@ + c.reset + raw + "\n"@,
        None => Seq::empty(),
    };
    head + source + "\n"@
}

pub open spec fn note_texts(
    notes: Seq<NotedView>,
    sources: Map<Seq<char>, Seq<Seq<char>>>,
    c: PaletteView,
) -> Seq<char>
    decreases notes.len(),
{
    if notes.len() == 0 {
        Seq::empty()
    } else {
        note_texts(notes.drop_last(), sources, c) + note_text(notes.last(), sources, c)
    }
}

/// The report of the notes; empty where there is none.
pub open spec fn notes_report(
    notes: Seq<NotedView>,
    color: bool,
    sources: Map<Seq<char>, Seq<Seq<char>>>,
) -> Seq<char> {
    let c = palette(color);
    if notes.len() == 0 {
        Seq::empty()
    } else {
        "  "@ + c.rev_green + " ℹ notes "@ + c.reset + "\n\n"@ + note_texts(notes, sources, c)
    }
}

fn render_note(n: &Noted, src: &SourceCache, c: &Palette) -> (r: String)
    ensures
        r@ == note_text(n@, src@, c@),
{
    let head = "  ".to_owned().concat(c.bold_cyan).concat("·").concat(c.reset).concat(" ").concat(c.dim).concat(
        n.note.to_string().as_str(),
    ).concat(c.reset).concat("\n    ").concat(c.dim).concat(n.file.as_str()).concat(":").concat(
        text::decimal_text(n.line as u64).as_str(),
    ).concat(c.reset).concat("\n");
    let source = match src.line(n.file.as_str(), n.line) {
        Some(raw) => {
            let number = text::pad_left_text(
                text::decimal_text(n.line as u64).as_str(),
                number_width_of(n.line),
                ' ',
            );
            "    ".to_owned().concat(c.dim).concat(number.as_str()).concat("  │  ").concat(c.reset).concat(
                raw.as_str(),
            ).concat("\n")
        },
        None => String::new(),
    };
    head.concat(source.as_str()).concat("\n")
}

/// Renders the notes, in a quieter style than the findings.
pub fn render_notes_text(notes: &[Noted], color: bool, src: &SourceCache) -> (r: String)
    ensures
        r@ == notes_report(text::views(notes@), color, src@),
{
    if notes.len() == 0 {
        let empty = String::new();
        assert(empty@ =~= Seq::<char>::empty());
        return empty;
    }
    let c = Palette::new(color);
    let ghost all = text::views(notes@);
    let mut out = "  ".to_owned().concat(c.rev_green).concat(" ℹ notes ").concat(c.reset).concat("\n\n");
    let ghost head = out@;
    let mut i: usize = 0;
    assert(head + note_texts(all.take(0), src@, c@) =~= head);
    while i < notes.len()
        invariant
            i <= notes@.len(),
            all == text::views(notes@),
            c@ == palette(color),
            out@ == head + note_texts(all.take(i as int), src@, c@),
        decreases notes.len() - i,
    {
        assert(all.take(i + 1).drop_last() =~= all.take(i as int));
        assert(all.take(i + 1).last() == notes@[i as int]@);
        out.append(render_note(&notes[i], src, &c).as_str());
        i += 1;
        assert(out@ =~= head + note_texts(all.take(i as int), src@, c@));
    }
    assert(all.take(all.len() as int) =~= all);
    out
}

} // verus!
