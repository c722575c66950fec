//! What is looked at in the text of an SVD document before it is parsed.
//!
//! The parser gives up on two forms of an element in place of refusing them: a
//! `writeConstraint` of a register or field that holds no element, and a field whose bits
//! go from the lowest number of thirty-two bits to the highest. A document with one of
//! these is told by its text. The text is read from its start, with the elements that are
//! open at each place; of a text that is no well-formed XML nothing is claimed but that
//! the parser refuses it.

use vstd::prelude::*;

use crate::literal;
use crate::text;

verus! {

broadcast use crate::text::group_views;

// ── Markup ───────────────────────────────────────────────────────────────────

/// Whether `lit` stands at the place `i` of `s`.
pub open spec fn stands_at(s: Seq<char>, i: int, lit: Seq<char>) -> bool {
    0 <= i <= s.len() && lit.is_prefix_of(s.skip(i))
}

/// The place of the first `lit` at or after `from`; the end of the text where there is
/// none.
pub open spec fn place(s: Seq<char>, from: int, lit: Seq<char>) -> int
    decreases s.len() - from,
{
    if from < 0 || from >= s.len() {
        s.len() as int
    } else if stands_at(s, from, lit) {
        from
    } else {
        place(s, from + 1, lit)
    }
}

/// The place behind the first `lit` at or after `from`; the end of the text where there
/// is none.
pub open spec fn behind(s: Seq<char>, from: int, lit: Seq<char>) -> int {
    let at = place(s, from, lit);
    if at + lit.len() <= s.len() {
        at + lit.len()
    } else {
        s.len() as int
    }
}

/// The place of the `>` that ends the tag, quoted ones passed over; the end of the text
/// where there is none. `quote` is the quotation mark that is open.
pub open spec fn tag_end(s: Seq<char>, from: int, quote: Option<char>) -> int
    decreases s.len() - from,
{
    if from < 0 || from >= s.len() {
        s.len() as int
    } else {
        match quote {
            Some(q) => tag_end(
                s,
                from + 1,
                if s[from] == q {
                    None
                } else {
                    quote
                },
            ),
            None => if s[from] == '>' {
                from
            } else if s[from] == '"' || s[from] == '\'' {
                tag_end(s, from + 1, Some(s[from]))
            } else {
                tag_end(s, from + 1, None)
            },
        }
    }
}

/// Whether a tag's name ends before `c`: at white space as XML has it, or at the tag's end.
pub open spec fn ends_name(c: char) -> bool {
    c == ' ' || c == '\t' || c == '\r' || c == '\n' || c == '/' || c == '>'
}

/// The place of the first character at or after `from` that ends a tag's name.
pub open spec fn name_end(s: Seq<char>, from: int) -> int
    decreases s.len() - from,
{
    if from < 0 || from >= s.len() {
        s.len() as int
    } else if ends_name(s[from]) {
        from
    } else {
        name_end(s, from + 1)
    }
}

/// The name of the tag whose name begins at `from`, without a prefix.
pub open spec fn tag_name(s: Seq<char>, from: int) -> Seq<char> {
    let name = s.subrange(from, name_end(s, from));
    match text::find(name, ":"@) {
        Some(i) => name.skip(i as int + 1),
        None => name,
    }
}

/// What stands at a place.
#[derive(Debug, Clone, Copy, PartialEq, Eq, Structural)]
pub enum Markup {
    /// A comment or a processing instruction.
    Remark,
    /// Text that is taken as it stands.
    Raw,
    EndTag,
    StartTag,
    Character,
}

pub open spec fn markup(s: Seq<char>, i: int) -> Markup {
    if stands_at(s, i, "<!--"@) || stands_at(s, i, "<?"@) {
        Markup::Remark
    } else if stands_at(s, i, "<![CDATA["@) {
        Markup::Raw
    } else if stands_at(s, i, "</"@) {
        Markup::EndTag
    } else if stands_at(s, i, "<"@) {
        Markup::StartTag
    } else {
        Markup::Character
    }
}

/// Whether the start tag at `i` is that of an element without content.
pub open spec fn is_empty_tag(s: Seq<char>, i: int) -> bool {
    let end = tag_end(s, i + 1, None);
    i < end - 1 && end < s.len() && s[end - 1] == '/'
}

// ── References ───────────────────────────────────────────────────────────────

/// Whether `n` is the number of a character.
pub open spec fn is_scalar(n: int) -> bool {
    0 <= n <= 0xd7ff || 0xe000 <= n <= 0x10ffff
}

/// The character with that number, as far as a document may hold it; the replacement
/// character for a number that no character has.
pub open spec fn numbered(n: u64) -> Option<char> {
    if n > u32::MAX {
        None
    } else if !is_scalar(n as int) {
        Some('\u{fffd}')
    } else if n < 0x20 && n != 9 && n != 10 && n != 13 {
        None
    } else if n == 0xfffe || n == 0xffff {
        None
    } else {
        Some((n as u32) as char)
    }
}

/// The character that the reference between `&` and `;` stands for.
pub open spec fn referred(body: Seq<char>) -> Option<char> {
    if body == "quot"@ {
        Some('"')
    } else if body == "amp"@ {
        Some('&')
    } else if body == "apos"@ {
        Some('\'')
    } else if body == "lt"@ {
        Some('<')
    } else if body == "gt"@ {
        Some('>')
    } else if "#x"@.is_prefix_of(body) {
        spelled(body.skip(2), 16)
    } else if "#"@.is_prefix_of(body) {
        spelled(body.skip(1), 10)
    } else {
        None
    }
}

/// The character whose number is spelled with digits alone.
pub open spec fn spelled(digits: Seq<char>, radix: nat) -> Option<char> {
    if digits.len() > 0 && digits[0] == '+' {
        None
    } else {
        match literal::unsigned(digits, radix) {
            Some(n) => numbered(n),
            None => None,
        }
    }
}

/// Whether `c` can stand in a reference.
pub open spec fn in_reference(c: char) -> bool {
    c == '#' || '0' <= c <= '9' || 'a' <= c <= 'z' || 'A' <= c <= 'Z'
}

/// The place of the first character at or after `from` that stands in no reference.
pub open spec fn reference_end(s: Seq<char>, from: int) -> int
    decreases s.len() - from,
{
    if from < 0 || from >= s.len() {
        s.len() as int
    } else if !in_reference(s[from]) {
        from
    } else {
        reference_end(s, from + 1)
    }
}

/// The character that stands at `i`, by itself or by a reference, and the place behind it.
pub open spec fn character(s: Seq<char>, i: int) -> (char, int) {
    let end = reference_end(s, i + 1);
    if s[i] == '&' && end < s.len() && s[end] == ';' {
        match referred(s.subrange(i + 1, end)) {
            Some(c) => (c, end + 1),
            None => (s[i], i + 1),
        }
    } else {
        (s[i], i + 1)
    }
}

/// Where to go on after what stands at `i`.
pub open spec fn step(s: Seq<char>, i: int) -> int {
    let n = match markup(s, i) {
        Markup::Remark => if stands_at(s, i, "<!--"@) {
            behind(s, i + 4, "-->"@)
        } else {
            behind(s, i + 2, "?>"@)
        },
        Markup::Raw => behind(s, i + 9, "]]>"@),
        Markup::EndTag => behind(s, i + 2, ">"@),
        Markup::StartTag => tag_end(s, i + 1, None) + 1,
        Markup::Character => character(s, i).1,
    };
    if i < n <= s.len() {
        n
    } else {
        s.len() as int
    }
}

// ── Bit ranges ───────────────────────────────────────────────────────────────

/// The text with `0` for each digit that is left open.
pub open spec fn closed_digits(s: Seq<char>, upper: bool) -> Seq<char> {
    Seq::new(
        s.len(),
        |i: int|
            if s[i] == 'x' || (upper && s[i] == 'X') {
                '0'
            } else {
                s[i]
            },
    )
}

/// The number that an element's text stands for: hexadecimal, binary or decimal. A digit
/// of a binary number may be left open, as `x`.
pub open spec fn svd_number(content: Seq<char>) -> Option<u64> {
    let t = text::trim(content);
    if "0x"@.is_prefix_of(t) || "0X"@.is_prefix_of(t) {
        literal::unsigned(t.skip(2), 16)
    } else if "#"@.is_prefix_of(t) {
        literal::unsigned(closed_digits(t.skip(1), true), 2)
    } else if "0b"@.is_prefix_of(t) {
        literal::unsigned(closed_digits(t.skip(2), false), 2)
    } else {
        literal::unsigned(t, 10)
    }
}

/// The highest and the lowest bit in `[highest:lowest]`.
pub open spec fn bits_in_brackets(content: Seq<char>) -> (Option<u64>, Option<u64>) {
    if content.len() >= 2 && content[0] == '[' && content.last() == ']' {
        let parts = text::split(content.subrange(1, content.len() - 1), ':');
        (
            literal::unsigned(parts[0], 10),
            if parts.len() >= 2 {
                literal::unsigned(parts[1], 10)
            } else {
                None
            },
        )
    } else {
        (None, None)
    }
}

// ── Elements ─────────────────────────────────────────────────────────────────

/// What an element is to the parser, by the elements around it.
#[derive(Debug, Clone, Copy, PartialEq, Eq, Structural)]
pub enum Role {
    Document,
    Device,
    Peripherals,
    Peripheral,
    Registers,
    Cluster,
    Register,
    Fields,
    Field,
    WriteConstraint,
    BitRange,
    Highest,
    Lowest,
    Other,
}

/// An element whose end is not reached.
#[derive(Debug)]
pub struct Frame {
    pub role: Role,
    /// Whether an element was found in it.
    pub holds: bool,
    /// Whether the one element with the peripherals, registers or fields was found in it.
    pub listed: bool,
    /// Whether a `writeConstraint` was found in it.
    pub constrained: bool,
    /// The text of the first `bitRange` in it.
    pub range: Option<Vec<char>>,
    /// The text of the first `msb` in it.
    pub highest: Option<Vec<char>>,
    /// The text of the first `lsb` in it.
    pub lowest: Option<Vec<char>>,
    /// The text that it begins with.
    pub text: Vec<char>,
    /// Whether anything but text was found in it.
    pub text_ended: bool,
}

pub struct FrameView {
    pub role: Role,
    pub holds: bool,
    pub listed: bool,
    pub constrained: bool,
    pub range: Option<Seq<char>>,
    pub highest: Option<Seq<char>>,
    pub lowest: Option<Seq<char>>,
    pub text: Seq<char>,
    pub text_ended: bool,
}

pub open spec fn option_chars(o: Option<Vec<char>>) -> Option<Seq<char>> {
    match o {
        Some(v) => Some(v@),
        None => None,
    }
}

impl View for Frame {
    type V = FrameView;

    open spec fn view(&self) -> FrameView {
        FrameView {
            role: self.role,
            holds: self.holds,
            listed: self.listed,
            constrained: self.constrained,
            range: option_chars(self.range),
            highest: option_chars(self.highest),
            lowest: option_chars(self.lowest),
            text: self.text@,
            text_ended: self.text_ended,
        }
    }
}

/// An element that has just begun.
pub open spec fn begun(role: Role) -> FrameView {
    FrameView {
        role,
        holds: false,
        listed: false,
        constrained: false,
        range: None,
        highest: None,
        lowest: None,
        text: Seq::empty(),
        text_ended: false,
    }
}

/// What an element of that name is in the element `f`. Of the elements that the parser
/// looks up by their name it takes the first.
pub open spec fn role_in(f: FrameView, name: Seq<char>) -> Role {
    match f.role {
        Role::Document => if name == "device"@ {
            Role::Device
        } else {
            Role::Other
        },
        Role::Device => if name == "peripherals"@ && !f.listed {
            Role::Peripherals
        } else {
            Role::Other
        },
        Role::Peripherals => if name == "peripheral"@ {
            Role::Peripheral
        } else {
            Role::Other
        },
        Role::Peripheral => if name == "registers"@ && !f.listed {
            Role::Registers
        } else {
            Role::Other
        },
        Role::Registers | Role::Cluster => if name == "register"@ {
            Role::Register
        } else if name == "cluster"@ {
            Role::Cluster
        } else {
            Role::Other
        },
        Role::Register => if name == "fields"@ && !f.listed {
            Role::Fields
        } else if name == "writeConstraint"@ && !f.constrained {
            Role::WriteConstraint
        } else {
            Role::Other
        },
        Role::Fields => if name == "field"@ {
            Role::Field
        } else {
            Role::Other
        },
        Role::Field => if name == "writeConstraint"@ && !f.constrained {
            Role::WriteConstraint
        } else if name == "bitRange"@ && f.range is None {
            Role::BitRange
        } else if name == "msb"@ && f.highest is None {
            Role::Highest
        } else if name == "lsb"@ && f.lowest is None {
            Role::Lowest
        } else {
            Role::Other
        },
        _ => Role::Other,
    }
}

/// The element `f`, once an element with that role has begun in it.
pub open spec fn holding(f: FrameView, role: Role) -> FrameView {
    FrameView {
        holds: true,
        listed: f.listed || role == Role::Peripherals || role == Role::Registers || role == Role::Fields,
        constrained: f.constrained || role == Role::WriteConstraint,
        text_ended: true,
        ..f
    }
}

/// The element `f`, once the element `inner` in it has ended.
pub open spec fn taking(f: FrameView, inner: FrameView) -> FrameView {
    match inner.role {
        Role::BitRange => FrameView { range: Some(inner.text), ..f },
        Role::Highest => FrameView { highest: Some(inner.text), ..f },
        Role::Lowest => FrameView { lowest: Some(inner.text), ..f },
        _ => f,
    }
}

/// The element `f`, once that text was found in it.
pub open spec fn telling(f: FrameView, t: Seq<char>) -> FrameView {
    if f.text_ended {
        f
    } else {
        FrameView { text: f.text + t, ..f }
    }
}

/// The highest and the lowest bit of a field, where they are numbers.
pub open spec fn bits_of(f: FrameView) -> (Option<u64>, Option<u64>) {
    match (f.range, f.highest, f.lowest) {
        (Some(t), _, _) => bits_in_brackets(t),
        (None, Some(h), Some(l)) => (svd_number(h), svd_number(l)),
        _ => (None, None),
    }
}

/// Whether an element that has ended is one that the parser takes or refuses.
pub open spec fn takeable(f: FrameView) -> bool {
    match f.role {
        Role::WriteConstraint => f.holds,
        Role::Field => bits_of(f) != (Some(u32::MAX as u64), Some(0u64)),
        _ => true,
    }
}

// ── The document ─────────────────────────────────────────────────────────────

/// The open elements, with another innermost one.
pub open spec fn on_top(open: Seq<FrameView>, f: FrameView) -> Seq<FrameView> {
    open.drop_last().push(f)
}

/// The open elements, once one of that name has begun.
pub open spec fn opened(open: Seq<FrameView>, name: Seq<char>) -> Seq<FrameView> {
    let role = role_in(open.last(), name);
    on_top(open, holding(open.last(), role)).push(begun(role))
}

/// The open elements, once the innermost one has ended.
pub open spec fn ended(open: Seq<FrameView>) -> Seq<FrameView> {
    on_top(open.drop_last(), taking(open.drop_last().last(), open.last()))
}

/// Whether every element from the place `i` on, inside the open ones, is one that the
/// parser takes or refuses.
pub open spec fn readable_from(s: Seq<char>, i: int, open: Seq<FrameView>) -> bool
    decreases s.len() - i,
{
    if i < 0 || i >= s.len() || open.len() == 0 {
        true
    } else {
        let top = open.last();
        match markup(s, i) {
            Markup::Remark => readable_from(s, step(s, i), on_top(open, FrameView { text_ended: true, ..top })),
            Markup::Raw => readable_from(
                s,
                step(s, i),
                on_top(open, telling(top, s.subrange(i + 9, place(s, i + 9, "]]>"@)))),
            ),
            Markup::EndTag => open.len() < 2 || (takeable(top) && readable_from(s, step(s, i), ended(open))),
            Markup::StartTag => {
                let inner = opened(open, tag_name(s, i + 1));
                if is_empty_tag(s, i) {
                    takeable(inner.last()) && readable_from(s, step(s, i), ended(inner))
                } else {
                    readable_from(s, step(s, i), inner)
                }
            },
            Markup::Character => readable_from(
                s,
                step(s, i),
                on_top(open, telling(top, seq![character(s, i).0])),
            ),
        }
    }
}

/// Whether the parser takes or refuses a document, and does not give up on it.
pub open spec fn readable(xml: Seq<char>) -> bool {
    readable_from(xml, 0, seq![begun(Role::Document)])
}

// ── Looking ──────────────────────────────────────────────────────────────────

fn at(s: &Vec<char>, i: usize, lit: &str) -> (r: bool)
    requires
        i <= s@.len(),
    ensures
        r == stands_at(s@, i as int, lit@),
{
    let n: usize = lit.unicode_len();
    if s.len() - i < n {
        return false;
    }
    let ghost rest = s@.skip(i as int);
    let mut k: usize = 0;
    while k < n
        invariant
            n == lit@.len(),
            k <= n,
            i + n <= s@.len() <= usize::MAX,
            rest == s@.skip(i as int),
            forall|j: int| 0 <= j < k ==> lit@[j] == rest[j],
        decreases n - k,
    {
        if s[i + k] != lit.get_char(k) {
            assert(rest.subrange(0, n as int)[k as int] == rest[k as int]);
            return false;
        }
        k += 1;
    }
    assert(lit@ =~= rest.subrange(0, n as int));
    true
}

fn place_of(s: &Vec<char>, from: usize, lit: &str) -> (r: usize)
    ensures
        r == place(s@, from as int, lit@),
        r <= s@.len(),
        from <= s@.len() ==> from <= r,
{
    let mut i: usize = from;
    while i < s.len() && !at(s, i, lit)
        invariant
            from <= i,
            from <= s@.len() ==> i <= s@.len(),
            place(s@, from as int, lit@) == place(s@, i as int, lit@),
        decreases s.len() - i,
    {
        i += 1;
    }
    if i >= s.len() {
        s.len()
    } else {
        i
    }
}

fn place_behind(s: &Vec<char>, from: usize, lit: &str) -> (r: usize)
    ensures
        r == behind(s@, from as int, lit@),
{
    let i: usize = place_of(s, from, lit);
    let n: usize = lit.unicode_len();
    if n <= s.len() - i {
        i + n
    } else {
        s.len()
    }
}

fn place_of_tag_end(s: &Vec<char>, from: usize) -> (r: usize)
    ensures
        r == tag_end(s@, from as int, None),
        r <= s@.len(),
{
    let mut i: usize = from;
    let mut quote: Option<char> = None;
    while i < s.len()
        invariant
            tag_end(s@, from as int, None) == tag_end(s@, i as int, quote),
        decreases s.len() - i,
    {
        match quote {
            Some(q) => {
                if s[i] == q {
                    quote = None;
                }
            },
            None => {
                if s[i] == '>' {
                    return i;
                }
                if s[i] == '"' || s[i] == '\'' {
                    quote = Some(s[i]);
                }
            },
        }
        i += 1;
    }
    s.len()
}

fn name_at(s: &Vec<char>, from: usize) -> (r: String)
    requires
        from <= s@.len(),
    ensures
        r@ == tag_name(s@, from as int),
{
    let mut i: usize = from;
    while i < s.len() && !(s[i] == ' ' || s[i] == '\t' || s[i] == '\r' || s[i] == '\n' || s[i] == '/' || s[i] == '>')
        invariant
            from <= i <= s@.len(),
            name_end(s@, from as int) == name_end(s@, i as int),
        decreases s.len() - i,
    {
        i += 1;
    }
    let name = text::string_of(s, from, i);
    match text::find_text(name.as_str(), ":") {
        Some(k) => {
            proof {
                text::lemma_find_within(name@, ":"@);
                reveal_strlit(":");
            }
            let n: usize = name.as_str().unicode_len();
            let local = name.as_str().substring_char(k + 1, n).to_owned();
            assert(local@ =~= name@.skip(k + 1));
            local
        },
        None => name,
    }
}

proof fn lemma_no_markup(s: Seq<char>, i: int)
    requires
        0 <= i < s.len(),
        s[i] != '<',
    ensures
        markup(s, i) == Markup::Character,
{
    reveal_strlit("<");
    reveal_strlit("<!--");
    reveal_strlit("<![CDATA[");
    reveal_strlit("<?");
    reveal_strlit("</");
    let rest = s.skip(i);
    assert(rest[0] == s[i]);
    assert(rest.subrange(0, 1)[0] == rest[0]);
    if rest.len() >= 2 {
        assert(rest.subrange(0, 2)[0] == rest[0]);
    }
    if rest.len() >= 4 {
        assert(rest.subrange(0, 4)[0] == rest[0]);
    }
    if rest.len() >= 9 {
        assert(rest.subrange(0, 9)[0] == rest[0]);
    }
}

fn markup_at(s: &Vec<char>, i: usize) -> (r: Markup)
    requires
        i < s@.len(),
    ensures
        r == markup(s@, i as int),
{
    if s[i] != '<' {
        proof {
            lemma_no_markup(s@, i as int);
        }
        Markup::Character
    } else if at(s, i, "<!--") || at(s, i, "<?") {
        Markup::Remark
    } else if at(s, i, "<![CDATA[") {
        Markup::Raw
    } else if at(s, i, "</") {
        Markup::EndTag
    } else if at(s, i, "<") {
        Markup::StartTag
    } else {
        Markup::Character
    }
}

/// `char::from_u32`: the character with that number, where there is one.
#[verifier::external_body]
fn char_of(n: u32) -> (r: Option<char>)
    ensures
        match r {
            Some(c) => is_scalar(n as int) && c == n as char,
            None => !is_scalar(n as int),
        },
{
    char::from_u32(n)
}

fn numbered_char(n: u64) -> (r: Option<char>)
    ensures
        r == numbered(n),
{
    if n > 0xffff_ffff {
        return None;
    }
    match char_of(n as u32) {
        None => Some('\u{fffd}'),
        Some(c) => {
            if (n < 0x20 && n != 9 && n != 10 && n != 13) || n == 0xfffe || n == 0xffff {
                None
            } else {
                Some(c)
            }
        },
    }
}

fn spelled_char(digits: &str, radix: u64) -> (r: Option<char>)
    requires
        2 <= radix <= 16,
    ensures
        r == spelled(digits@, radix as nat),
{
    if digits.unicode_len() > 0 && digits.get_char(0) == '+' {
        return None;
    }
    match literal::unsigned_of(digits, radix) {
        Some(n) => numbered_char(n),
        None => None,
    }
}

fn referred_char(body: &str) -> (r: Option<char>)
    ensures
        r == referred(body@),
{
    let n: usize = body.unicode_len();
    if text::same_text(body, "quot") {
        Some('"')
    } else if text::same_text(body, "amp") {
        Some('&')
    } else if text::same_text(body, "apos") {
        Some('\'')
    } else if text::same_text(body, "lt") {
        Some('<')
    } else if text::same_text(body, "gt") {
        Some('>')
    } else if text::starts_with_text(body, "#x") {
        proof {
            reveal_strlit("#x");
        }
        let digits = body.substring_char(2, n);
        assert(digits@ =~= body@.skip(2));
        spelled_char(digits, 16)
    } else if text::starts_with_text(body, "#") {
        proof {
            reveal_strlit("#");
        }
        let digits = body.substring_char(1, n);
        assert(digits@ =~= body@.skip(1));
        spelled_char(digits, 10)
    } else {
        None
    }
}

fn character_at(s: &Vec<char>, i: usize) -> (r: (char, usize))
    requires
        i < s@.len(),
    ensures
        (r.0, r.1 as int) == character(s@, i as int),
        i < r.1 <= s@.len(),
{
    let len: usize = s.len();
    if s[i] != '&' {
        return (s[i], i + 1);
    }
    let mut end: usize = i + 1;
    while end < s.len() && (s[end] == '#' || ('0' <= s[end] && s[end] <= '9') || ('a' <= s[end] && s[end] <= 'z') || (
    'A' <= s[end] && s[end] <= 'Z'))
        invariant
            i < end <= s@.len(),
            reference_end(s@, i + 1) == reference_end(s@, end as int),
        decreases s.len() - end,
    {
        end += 1;
    }
    if end < len && s[end] == ';' {
        let body = text::string_of(s, i + 1, end);
        if let Some(c) = referred_char(body.as_str()) {
            return (c, end + 1);
        }
    }
    (s[i], i + 1)
}

fn next_place(s: &Vec<char>, i: usize) -> (r: usize)
    requires
        i < s@.len(),
    ensures
        r == step(s@, i as int),
        i < r <= s@.len(),
{
    let len: usize = s.len();
    proof {
        reveal_strlit("<!--");
        reveal_strlit("<![CDATA[");
        reveal_strlit("<?");
        reveal_strlit("</");
    }
    let n: usize = match markup_at(s, i) {
        Markup::Remark => {
            if at(s, i, "<!--") {
                place_behind(s, i + 4, "-->")
            } else {
                place_behind(s, i + 2, "?>")
            }
        },
        Markup::Raw => place_behind(s, i + 9, "]]>"),
        Markup::EndTag => place_behind(s, i + 2, ">"),
        Markup::StartTag => {
            let end: usize = place_of_tag_end(s, i + 1);
            if end < len {
                end + 1
            } else {
                return len;
            }
        },
        Markup::Character => character_at(s, i).1,
    };
    if n > i && n <= len {
        n
    } else {
        len
    }
}

fn close_digits(s: &str, upper: bool) -> (r: String)
    ensures
        r@ == closed_digits(s@, upper),
{
    let chars = text::chars_of(s);
    let mut out = String::new();
    let mut i: usize = 0;
    assert(out@ =~= closed_digits(s@, upper).take(0));
    while i < chars.len()
        invariant
            chars@ == s@,
            i <= chars@.len(),
            out@ == closed_digits(s@, upper).take(i as int),
        decreases chars.len() - i,
    {
        if chars[i] == 'x' || (upper && chars[i] == 'X') {
            out.push('0');
        } else {
            out.push(chars[i]);
        }
        i += 1;
        assert(out@ =~= closed_digits(s@, upper).take(i as int));
    }
    assert(closed_digits(s@, upper).take(s@.len() as int) =~= closed_digits(s@, upper));
    out
}

fn number_of(content: &Vec<char>) -> (r: Option<u64>)
    ensures
        r == svd_number(content@),
{
    assert(content@.subrange(0, content@.len() as int) =~= content@);
    let content = text::string_of(content, 0, content.len());
    let t = text::trim_text(content.as_str());
    let t = t.as_str();
    proof {
        reveal_strlit("0x");
        reveal_strlit("0X");
        reveal_strlit("0b");
        reveal_strlit("#");
    }
    let n: usize = t.unicode_len();
    if text::starts_with_text(t, "0x") || text::starts_with_text(t, "0X") {
        let rest = t.substring_char(2, n);
        assert(rest@ =~= t@.skip(2));
        literal::unsigned_of(rest, 16)
    } else if text::starts_with_text(t, "#") {
        let rest = t.substring_char(1, n);
        assert(rest@ =~= t@.skip(1));
        literal::unsigned_of(close_digits(rest, true).as_str(), 2)
    } else if text::starts_with_text(t, "0b") {
        let rest = t.substring_char(2, n);
        assert(rest@ =~= t@.skip(2));
        literal::unsigned_of(close_digits(rest, false).as_str(), 2)
    } else {
        literal::unsigned_of(t, 10)
    }
}

fn bracketed_bits(content: &Vec<char>) -> (r: (Option<u64>, Option<u64>))
    ensures
        r == bits_in_brackets(content@),
{
    let n: usize = content.len();
    if n >= 2 && content[0] == '[' && content[n - 1] == ']' {
        let inner = text::string_of(content, 1, n - 1);
        let parts = text::split_text(inner.as_str(), ':');
        assert(text::views(parts@).len() == parts@.len());
        assert(text::views(parts@)[0] == parts@[0]@);
        let highest = literal::unsigned_of(parts[0].as_str(), 10);
        let lowest = if parts.len() >= 2 {
            assert(text::views(parts@)[1] == parts@[1]@);
            literal::unsigned_of(parts[1].as_str(), 10)
        } else {
            None
        };
        (highest, lowest)
    } else {
        (None, None)
    }
}

fn role_of(f: &Frame, name: &str) -> (r: Role)
    ensures
        r == role_in(f@, name@),
{
    match f.role {
        Role::Document => {
            if text::same_text(name, "device") {
                Role::Device
            } else {
                Role::Other
            }
        },
        Role::Device => {
            if !f.listed && text::same_text(name, "peripherals") {
                Role::Peripherals
            } else {
                Role::Other
            }
        },
        Role::Peripherals => {
            if text::same_text(name, "peripheral") {
                Role::Peripheral
            } else {
                Role::Other
            }
        },
        Role::Peripheral => {
            if !f.listed && text::same_text(name, "registers") {
                Role::Registers
            } else {
                Role::Other
            }
        },
        Role::Registers | Role::Cluster => {
            if text::same_text(name, "register") {
                Role::Register
            } else if text::same_text(name, "cluster") {
                Role::Cluster
            } else {
                Role::Other
            }
        },
        Role::Register => {
            if !f.listed && text::same_text(name, "fields") {
                Role::Fields
            } else if !f.constrained && text::same_text(name, "writeConstraint") {
                Role::WriteConstraint
            } else {
                Role::Other
            }
        },
        Role::Fields => {
            if text::same_text(name, "field") {
                Role::Field
            } else {
                Role::Other
            }
        },
        Role::Field => {
            if !f.constrained && text::same_text(name, "writeConstraint") {
                Role::WriteConstraint
            } else if f.range.is_none() && text::same_text(name, "bitRange") {
                Role::BitRange
            } else if f.highest.is_none() && text::same_text(name, "msb") {
                Role::Highest
            } else if f.lowest.is_none() && text::same_text(name, "lsb") {
                Role::Lowest
            } else {
                Role::Other
            }
        },
        _ => Role::Other,
    }
}

fn begin(role: Role) -> (r: Frame)
    ensures
        r@ == begun(role),
{
    let r = Frame {
        role,
        holds: false,
        listed: false,
        constrained: false,
        range: None,
        highest: None,
        lowest: None,
        text: Vec::new(),
        text_ended: false,
    };
    assert(r@.text =~= Seq::empty());
    r
}

fn is_takeable(f: &Frame) -> (r: bool)
    ensures
        r == takeable(f@),
{
    match f.role {
        Role::WriteConstraint => f.holds,
        Role::Field => {
            let bits = match (&f.range, &f.highest, &f.lowest) {
                (Some(t), _, _) => bracketed_bits(t),
                (None, Some(h), Some(l)) => (number_of(h), number_of(l)),
                _ => (None, None),
            };
            match bits {
                (Some(highest), Some(lowest)) => !(highest == 0xffff_ffff && lowest == 0),
                _ => true,
            }
        },
        _ => true,
    }
}

/// The innermost open element, taken off the others.
fn take_top(open: &mut Vec<Frame>) -> (r: Option<Frame>)
    ensures
        match r {
            Some(f) => {
                &&& text::views(old(open)@).len() > 0
                &&& f@ == text::views(old(open)@).last()
                &&& text::views(final(open)@) == text::views(old(open)@).drop_last()
            },
            None => text::views(old(open)@).len() == 0 && final(open)@ == old(open)@,
        },
{
    let ghost before = open@;
    let r = open.pop();
    proof {
        if before.len() > 0 {
            assert(text::views(before).drop_last() =~= text::views(before.drop_last()));
        }
    }
    r
}

/// Opens an element of that name.
fn open_element(open: &mut Vec<Frame>, name: &str)
    requires
        old(open)@.len() > 0,
    ensures
        text::views(final(open)@) == opened(text::views(old(open)@), name@),
{
    if let Some(mut top) = take_top(open) {
        let role = role_of(&top, name);
        top.holds = true;
        top.listed = top.listed || role == Role::Peripherals || role == Role::Registers || role == Role::Fields;
        top.constrained = top.constrained || role == Role::WriteConstraint;
        top.text_ended = true;
        open.push(top);
        open.push(begin(role));
    }
}

/// Ends the innermost element, and tells whether the parser takes or refuses it.
fn end_element(open: &mut Vec<Frame>) -> (r: bool)
    requires
        old(open)@.len() >= 2,
    ensures
        r == takeable(text::views(old(open)@).last()),
        text::views(final(open)@) == ended(text::views(old(open)@)),
{
    let ghost before = text::views(open@);
    match take_top(open) {
        Some(inner) => {
            let fine = is_takeable(&inner);
            if let Some(mut outer) = take_top(open) {
                match inner.role {
                    Role::BitRange => {
                        outer.range = Some(inner.text);
                    },
                    Role::Highest => {
                        outer.highest = Some(inner.text);
                    },
                    Role::Lowest => {
                        outer.lowest = Some(inner.text);
                    },
                    _ => {},
                }
                open.push(outer);
            }
            fine
        },
        None => true,
    }
}

/// Adds the characters `from..to` to the innermost element.
fn tell_raw(open: &mut Vec<Frame>, s: &Vec<char>, from: usize, to: usize)
    requires
        old(open)@.len() > 0,
        from <= to <= s@.len(),
    ensures
        text::views(final(open)@) == on_top(
            text::views(old(open)@),
            telling(text::views(old(open)@).last(), s@.subrange(from as int, to as int)),
        ),
{
    if let Some(mut top) = take_top(open) {
        let ghost before = top@;
        if !top.text_ended {
            let mut i: usize = from;
            assert(top.text@ =~= before.text + s@.subrange(from as int, from as int));
            while i < to
                invariant
                    from <= i <= to <= s@.len(),
                    !before.text_ended,
                    top@ == (FrameView { text: before.text + s@.subrange(from as int, i as int), ..before }),
                decreases to - i,
            {
                top.text.push(s[i]);
                i += 1;
                assert(top.text@ =~= before.text + s@.subrange(from as int, i as int));
            }
        }
        open.push(top);
    }
}

/// Adds a character to the innermost element.
fn tell(open: &mut Vec<Frame>, c: char)
    requires
        old(open)@.len() > 0,
    ensures
        text::views(final(open)@) == on_top(
            text::views(old(open)@),
            telling(text::views(old(open)@).last(), seq![c]),
        ),
{
    if let Some(mut top) = take_top(open) {
        let ghost before = top@;
        if !top.text_ended {
            top.text.push(c);
            assert(top.text@ =~= before.text + seq![c]);
        }
        open.push(top);
    }
}

/// Ends the text that the innermost element begins with.
fn end_text(open: &mut Vec<Frame>)
    requires
        old(open)@.len() > 0,
    ensures
        text::views(final(open)@) == on_top(
            text::views(old(open)@),
            (FrameView { text_ended: true, ..text::views(old(open)@).last() }),
        ),
{
    if let Some(mut top) = take_top(open) {
        top.text_ended = true;
        open.push(top);
    }
}

fn tag_is_empty(s: &Vec<char>, i: usize) -> (r: bool)
    requires
        i < s@.len(),
    ensures
        r == is_empty_tag(s@, i as int),
{
    let len: usize = s.len();
    let end: usize = place_of_tag_end(s, i + 1);
    end > i + 1 && end < len && s[end - 1] == '/'
}

/// Whether the parser takes or refuses a document, and does not give up on it.
pub fn is_readable(xml: &str) -> (r: bool)
    ensures
        r == readable(xml@),
{
    let s = text::chars_of(xml);
    let len: usize = s.len();
    let mut open: Vec<Frame> = Vec::new();
    open.push(begin(Role::Document));
    assert(text::views(open@) =~= seq![begun(Role::Document)]);
    let mut i: usize = 0;
    while i < s.len()
        invariant
            s@ == xml@,
            len == s@.len(),
            open@.len() > 0,
            readable(xml@) == readable_from(xml@, i as int, text::views(open@)),
        decreases s.len() - i,
    {
        let ghost before = text::views(open@);
        assert(before.len() == open@.len());
        let next: usize = next_place(&s, i);
        match markup_at(&s, i) {
            Markup::Remark => {
                end_text(&mut open);
            },
            Markup::Raw => {
                proof {
                    reveal_strlit("<![CDATA[");
                }
                let end: usize = place_of(&s, i + 9, "]]>");
                tell_raw(&mut open, &s, i + 9, end);
            },
            Markup::EndTag => {
                if open.len() < 2 {
                    return true;
                }
                if !end_element(&mut open) {
                    return false;
                }
            },
            Markup::StartTag => {
                let name = name_at(&s, i + 1);
                open_element(&mut open, name.as_str());
                if tag_is_empty(&s, i) {
                    assert(text::views(open@).len() == before.len() + 1);
                    if !end_element(&mut open) {
                        return false;
                    }
                }
            },
            Markup::Character => {
                tell(&mut open, character_at(&s, i).0);
            },
        }
        assert(text::views(open@).len() == open@.len());
        i = next;
    }
    true
}

} // verus!
