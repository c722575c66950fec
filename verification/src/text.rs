//! Text: the string operations that the rest of the library is written with,
//! stated over sequences of characters.

use vstd::prelude::*;

verus! {

/// `String::push` appends the given character to the end of the string.
pub assume_specification[ String::push ](s: &mut String, c: char)
    ensures
        final(s)@ == old(s)@.push(c),
;

/// The views of a sequence of values, one by one.
pub open spec fn views<T: View>(s: Seq<T>) -> Seq<T::V> {
    s.map_values(|t: T| t@)
}

pub broadcast proof fn lemma_views_push<T: View>(s: Seq<T>, x: T)
    ensures
        #[trigger] views(s.push(x)) == views(s).push(x@),
{
    assert(views(s.push(x)) =~= views(s).push(x@));
}

pub broadcast proof fn lemma_views_empty<T: View>()
    ensures
        #[trigger] views(Seq::<T>::empty()) == Seq::<T::V>::empty(),
{
    assert(views(Seq::<T>::empty()) =~= Seq::<T::V>::empty());
}

pub broadcast group group_views {
    lemma_views_push,
    lemma_views_empty,
}

// ── Characters in and out of strings ─────────────────────────────────────────

/// The characters of a string, in order.
pub fn chars_of(s: &str) -> (r: Vec<char>)
    ensures
        r@ == s@,
{
    let mut out: Vec<char> = Vec::new();
    for c in it: s.chars()
        invariant
            out@ == it.seq().take(it.index() as int),
            it.seq() == s@,
    {
        out.push(c);
        assert(out@ =~= it.seq().take(it.index() as int + 1));
    }
    assert(s@.take(s@.len() as int) =~= s@);
    out
}

/// The string made of the characters `from..to` of `chars`.
pub fn string_of(chars: &[char], from: usize, to: usize) -> (r: String)
    requires
        from <= to <= chars@.len(),
    ensures
        r@ == chars@.subrange(from as int, to as int),
{
    let mut out = String::new();
    let mut i: usize = from;
    assert(out@ =~= chars@.subrange(from as int, from as int));
    while i < to
        invariant
            from <= i <= to <= chars@.len(),
            out@ == chars@.subrange(from as int, i as int),
        decreases to - i,
    {
        out.push(chars[i]);
        i += 1;
        assert(out@ =~= chars@.subrange(from as int, i as int));
    }
    out
}

// ── Lengths ──────────────────────────────────────────────────────────────────

/// The number of bytes of the UTF-8 encoding of `s`.
pub open spec fn byte_len(s: Seq<char>) -> nat {
    vstd::utf8::encode_utf8(s).len()
}

/// The bytes of a text in two parts are those of the parts.
pub proof fn lemma_byte_len_concat(a: Seq<char>, b: Seq<char>)
    ensures
        byte_len(a + b) == byte_len(a) + byte_len(b),
    decreases a.len(),
{
    if a.len() == 0 {
        assert(a + b =~= b);
    } else {
        lemma_byte_len_concat(a.drop_first(), b);
        assert((a + b).drop_first() =~= a.drop_first() + b);
        assert((a + b)[0] == a[0]);
    }
}

pub fn byte_len_of(s: &str) -> (r: usize)
    ensures
        r == byte_len(s@),
{
    s.as_bytes().len()
}

// ── Comparing ────────────────────────────────────────────────────────────────

/// Whether two strings hold the same characters.
pub fn same_text(a: &str, b: &str) -> (r: bool)
    ensures
        r == (a@ == b@),
{
    let x: &[u8] = a.as_bytes();
    let y: &[u8] = b.as_bytes();
    if x.len() != y.len() {
        return false;
    }
    let mut i: usize = 0;
    while i < x.len()
        invariant
            x@.len() == y@.len(),
            x@ == vstd::utf8::encode_utf8(a@),
            y@ == vstd::utf8::encode_utf8(b@),
            i <= x@.len(),
            forall|j: int| 0 <= j < i ==> x@[j] == y@[j],
        decreases x.len() - i,
    {
        if x[i] != y[i] {
            return false;
        }
        i += 1;
    }
    proof {
        assert(x@ =~= y@);
        vstd::utf8::encode_utf8_decode_utf8(a@);
        vstd::utf8::encode_utf8_decode_utf8(b@);
    }
    true
}

// ── Numbers ──────────────────────────────────────────────────────────────────

/// The lower-case digit character of `d`, for digits up to fifteen.
pub open spec fn digit_char(d: nat) -> char {
    if d < 10 {
        (48 + d) as char
    } else {
        (87 + d) as char
    }
}

/// The digits of `n` in base `radix`, most significant first.
pub open spec fn digits(n: nat, radix: nat) -> Seq<char>
    decreases n,
{
    if radix < 2 || n < radix {
        seq![digit_char(n)]
    } else {
        proof {
            vstd::arithmetic::div_mod::lemma_div_decreases(n as int, radix as int);
        }
        digits(n / radix, radix).push(digit_char(n % radix))
    }
}

/// `n` as decimal text.
pub open spec fn decimal(n: nat) -> Seq<char> {
    digits(n, 10)
}

/// `n` as lower-case hexadecimal text, without a prefix.
pub open spec fn hex(n: nat) -> Seq<char> {
    digits(n, 16)
}

/// `n` as hexadecimal text of at least `width` digits.
pub open spec fn hex_padded(n: nat, width: nat) -> Seq<char> {
    pad_left(hex(n), width, '0')
}

fn digit_char_of(d: u8) -> (c: char)
    requires
        d < 16,
    ensures
        c == digit_char(d as nat),
{
    if d < 10 {
        (48u8 + d) as char
    } else {
        (87u8 + d) as char
    }
}

fn digits_text(n: u64, radix: u64) -> (r: String)
    requires
        2 <= radix <= 16,
    ensures
        r@ == digits(n as nat, radix as nat),
    decreases n,
{
    if n < radix {
        let mut s = String::new();
        s.push(digit_char_of(n as u8));
        assert(s@ =~= seq![digit_char(n as nat)]);
        s
    } else {
        proof {
            vstd::arithmetic::div_mod::lemma_div_decreases(n as int, radix as int);
        }
        let mut s = digits_text(n / radix, radix);
        s.push(digit_char_of((n % radix) as u8));
        s
    }
}

pub fn decimal_text(n: u64) -> (r: String)
    ensures
        r@ == decimal(n as nat),
{
    digits_text(n, 10)
}

pub fn hex_text(n: u64) -> (r: String)
    ensures
        r@ == hex(n as nat),
{
    digits_text(n, 16)
}

pub fn hex_padded_text(n: u64, width: usize) -> (r: String)
    ensures
        r@ == hex_padded(n as nat, width as nat),
{
    pad_left_text(hex_text(n).as_str(), width, '0')
}

// ── Filling and padding ──────────────────────────────────────────────────────

/// `n` copies of the character `c`.
pub open spec fn fill(c: char, n: nat) -> Seq<char> {
    Seq::new(n, |i: int| c)
}

pub open spec fn pad_left(s: Seq<char>, width: nat, c: char) -> Seq<char> {
    if s.len() >= width {
        s
    } else {
        fill(c, (width - s.len()) as nat) + s
    }
}

pub open spec fn pad_right(s: Seq<char>, width: nat) -> Seq<char> {
    if s.len() >= width {
        s
    } else {
        s + fill(' ', (width - s.len()) as nat)
    }
}

pub fn fill_text(c: char, n: usize) -> (r: String)
    ensures
        r@ == fill(c, n as nat),
{
    let mut out = String::new();
    let mut i: usize = 0;
    assert(out@ =~= fill(c, 0));
    while i < n
        invariant
            i <= n,
            out@ == fill(c, i as nat),
        decreases n - i,
    {
        out.push(c);
        i += 1;
        assert(out@ =~= fill(c, i as nat));
    }
    out
}

pub fn pad_left_text(s: &str, width: usize, c: char) -> (r: String)
    ensures
        r@ == pad_left(s@, width as nat, c),
{
    let len: usize = s.unicode_len();
    if len >= width {
        s.to_owned()
    } else {
        fill_text(c, width - len).concat(s)
    }
}

pub fn pad_right_text(s: &str, width: usize) -> (r: String)
    ensures
        r@ == pad_right(s@, width as nat),
{
    let len: usize = s.unicode_len();
    if len >= width {
        s.to_owned()
    } else {
        s.to_owned().concat(fill_text(' ', width - len).as_str())
    }
}

// ── Joining ──────────────────────────────────────────────────────────────────

/// The parts in order, with `sep` between each two.
pub open spec fn join(parts: Seq<Seq<char>>, sep: Seq<char>) -> Seq<char>
    decreases parts.len(),
{
    if parts.len() == 0 {
        Seq::empty()
    } else if parts.len() == 1 {
        parts[0]
    } else {
        join(parts.drop_last(), sep) + sep + parts.last()
    }
}

pub fn join_text(parts: &[String], sep: &str) -> (r: String)
    ensures
        r@ == join(views(parts@), sep@),
{
    let ghost all = views(parts@);
    let mut out = String::new();
    let mut i: usize = 0;
    assert(all.take(0).len() == 0);
    while i < parts.len()
        invariant
            i <= parts@.len(),
            all == views(parts@),
            out@ == join(all.take(i as int), sep@),
        decreases parts.len() - i,
    {
        assert(all.take(i + 1).drop_last() =~= all.take(i as int));
        assert(all.take(i + 1).last() == parts@[i as int]@);
        if i > 0 {
            out.append(sep);
            out.append(parts[i].as_str());
        } else {
            out = parts[i].clone();
        }
        i += 1;
    }
    assert(all.take(all.len() as int) =~= all);
    out
}

// ── Cutting ──────────────────────────────────────────────────────────────────

/// `s` without the prefix `p`, where it starts with it.
pub open spec fn strip_prefix(s: Seq<char>, p: Seq<char>) -> Option<Seq<char>> {
    if p.is_prefix_of(s) {
        Some(s.skip(p.len() as int))
    } else {
        None
    }
}

/// `s` without the suffix `p`, where it ends with it.
pub open spec fn strip_suffix(s: Seq<char>, p: Seq<char>) -> Option<Seq<char>> {
    if p.is_suffix_of(s) {
        Some(s.take(s.len() - p.len()))
    } else {
        None
    }
}

/// The view of an optional string.
pub open spec fn option_view(s: Option<String>) -> Option<Seq<char>> {
    match s {
        Some(s) => Some(s@),
        None => None,
    }
}

pub fn starts_with_text(s: &str, p: &str) -> (r: bool)
    ensures
        r == p@.is_prefix_of(s@),
{
    let n: usize = s.unicode_len();
    let m: usize = p.unicode_len();
    m <= n && same_text(s.substring_char(0, m), p)
}

pub fn ends_with_text(s: &str, p: &str) -> (r: bool)
    ensures
        r == p@.is_suffix_of(s@),
{
    let n: usize = s.unicode_len();
    let m: usize = p.unicode_len();
    m <= n && same_text(s.substring_char(n - m, n), p)
}

pub fn strip_prefix_text(s: &str, p: &str) -> (r: Option<String>)
    ensures
        option_view(r) == strip_prefix(s@, p@),
{
    if starts_with_text(s, p) {
        let n: usize = s.unicode_len();
        let m: usize = p.unicode_len();
        let rest = s.substring_char(m, n).to_owned();
        assert(rest@ =~= s@.skip(m as int));
        Some(rest)
    } else {
        None
    }
}

pub fn strip_suffix_text(s: &str, p: &str) -> (r: Option<String>)
    ensures
        option_view(r) == strip_suffix(s@, p@),
{
    if ends_with_text(s, p) {
        let n: usize = s.unicode_len();
        let m: usize = p.unicode_len();
        let rest = s.substring_char(0, n - m).to_owned();
        assert(rest@ =~= s@.take(n - m));
        Some(rest)
    } else {
        None
    }
}

/// The characters with the Unicode property White_Space.
pub open spec fn is_space(c: char) -> bool {
    ||| '\u{9}' <= c <= '\u{d}'
    ||| c == ' '
    ||| c == '\u{85}'
    ||| c == '\u{a0}'
    ||| c == '\u{1680}'
    ||| '\u{2000}' <= c <= '\u{200a}'
    ||| c == '\u{2028}'
    ||| c == '\u{2029}'
    ||| c == '\u{202f}'
    ||| c == '\u{205f}'
    ||| c == '\u{3000}'
}

pub fn is_space_char(c: char) -> (r: bool)
    ensures
        r == is_space(c),
{
    ('\u{9}' <= c && c <= '\u{d}') || c == ' ' || c == '\u{85}' || c == '\u{a0}' || c == '\u{1680}' || (
    '\u{2000}' <= c && c <= '\u{200a}') || c == '\u{2028}' || c == '\u{2029}' || c == '\u{202f}' || c
        == '\u{205f}' || c == '\u{3000}'
}

/// `s` from its first character that is not white space.
pub open spec fn trim_start(s: Seq<char>) -> Seq<char>
    decreases s.len(),
{
    if s.len() > 0 && is_space(s.first()) {
        trim_start(s.drop_first())
    } else {
        s
    }
}

/// `s` up to its last character that is not white space.
pub open spec fn trim_end(s: Seq<char>) -> Seq<char>
    decreases s.len(),
{
    if s.len() > 0 && is_space(s.last()) {
        trim_end(s.drop_last())
    } else {
        s
    }
}

pub fn trim_end_text(s: &str) -> (r: String)
    ensures
        r@ == trim_end(s@),
{
    let chars = chars_of(s);
    let mut to: usize = chars.len();
    assert(s@.take(to as int) =~= s@);
    while to > 0 && is_space_char(chars[to - 1])
        invariant
            chars@ == s@,
            to <= chars@.len(),
            trim_end(s@.take(to as int)) == trim_end(s@),
        decreases to,
    {
        assert(s@.take(to as int).drop_last() =~= s@.take(to - 1));
        to -= 1;
    }
    let r = string_of(&chars, 0, to);
    assert(r@ =~= s@.take(to as int));
    r
}

/// `s` without white space at its ends.
pub open spec fn trim(s: Seq<char>) -> Seq<char> {
    trim_end(trim_start(s))
}

pub fn trim_text(s: &str) -> (r: String)
    ensures
        r@ == trim(s@),
{
    let chars = chars_of(s);
    let mut from: usize = 0;
    let mut to: usize = chars.len();
    assert(s@.skip(0) =~= s@);
    while from < chars.len() && is_space_char(chars[from])
        invariant
            chars@ == s@,
            from <= chars@.len(),
            trim_start(s@.skip(from as int)) == trim_start(s@),
        decreases chars.len() - from,
    {
        assert(s@.skip(from as int).drop_first() =~= s@.skip(from + 1));
        from += 1;
    }
    assert(s@.skip(from as int) == trim_start(s@));
    assert(s@.subrange(from as int, to as int) =~= s@.skip(from as int));
    while from < to && is_space_char(chars[to - 1])
        invariant
            chars@ == s@,
            from <= to <= chars@.len(),
            trim_end(s@.subrange(from as int, to as int)) == trim(s@),
        decreases to - from,
    {
        assert(s@.subrange(from as int, to as int).drop_last() =~= s@.subrange(from as int, to - 1));
        to -= 1;
    }
    string_of(&chars, from, to)
}

// ── Splitting ────────────────────────────────────────────────────────────────

/// A text at each `c`: what stands before each, and what stands behind the last.
pub open spec fn cut(s: Seq<char>, c: char) -> (Seq<Seq<char>>, Seq<char>)
    decreases s.len(),
{
    if s.len() == 0 {
        (Seq::empty(), Seq::empty())
    } else {
        let (parts, rest) = cut(s.drop_last(), c);
        if s.last() == c {
            (parts.push(rest), Seq::empty())
        } else {
            (parts, rest.push(s.last()))
        }
    }
}

/// The parts of a text between each two `c`; at least one.
pub open spec fn split(s: Seq<char>, c: char) -> Seq<Seq<char>> {
    cut(s, c).0.push(cut(s, c).1)
}

pub fn split_text(s: &str, c: char) -> (r: Vec<String>)
    ensures
        views(r@) == split(s@, c),
{
    broadcast use group_views;
    let chars = chars_of(s);
    let mut out: Vec<String> = Vec::new();
    let mut rest = String::new();
    let mut i: usize = 0;
    assert(s@.take(0).len() == 0);
    assert(rest@ =~= Seq::<char>::empty());
    while i < chars.len()
        invariant
            chars@ == s@,
            i <= chars@.len(),
            (views(out@), rest@) == cut(s@.take(i as int), c),
        decreases chars.len() - i,
    {
        assert(s@.take(i + 1).drop_last() =~= s@.take(i as int));
        assert(s@.take(i + 1).last() == chars@[i as int]);
        if chars[i] == c {
            out.push(rest);
            rest = String::new();
            assert(rest@ =~= Seq::<char>::empty());
        } else {
            rest.push(chars[i]);
        }
        i += 1;
    }
    assert(s@.take(s@.len() as int) =~= s@);
    out.push(rest);
    out
}

// ── Searching ────────────────────────────────────────────────────────────────

/// The place of the first occurrence of `n` in `h`, counted in characters.
pub open spec fn find(h: Seq<char>, n: Seq<char>) -> Option<nat>
    decreases h.len(),
{
    if n.is_prefix_of(h) {
        Some(0)
    } else if h.len() == 0 {
        None
    } else {
        match find(h.drop_first(), n) {
            Some(i) => Some(i + 1),
            None => None,
        }
    }
}

/// An occurrence lies within the text.
pub proof fn lemma_find_within(h: Seq<char>, n: Seq<char>)
    ensures
        find(h, n) matches Some(i) ==> i + n.len() <= h.len() && h.subrange(i as int, (i + n.len()) as int) == n,
    decreases h.len(),
{
    if n.is_prefix_of(h) {
        assert(h.subrange(0, n.len() as int) =~= n);
    } else if h.len() > 0 {
        lemma_find_within(h.drop_first(), n);
        if let Some(i) = find(h.drop_first(), n) {
            assert(h.drop_first().subrange(i as int, (i + n.len()) as int) =~= h.subrange(
                i as int + 1,
                (i + 1 + n.len()) as int,
            ));
        }
    }
}

/// What stands in a text is found in it.
pub proof fn lemma_find_present(a: Seq<char>, n: Seq<char>, b: Seq<char>)
    ensures
        find(a + n + b, n) is Some,
    decreases a.len(),
{
    let h = a + n + b;
    if a.len() == 0 {
        assert(h.subrange(0, n.len() as int) =~= n);
    } else {
        lemma_find_present(a.drop_first(), n, b);
        assert(h.drop_first() =~= a.drop_first() + n + b);
    }
}

fn occurs_at(h: &[char], n: &[char], at: usize) -> (r: bool)
    requires
        at <= h@.len(),
    ensures
        r == n@.is_prefix_of(h@.skip(at as int)),
{
    if h.len() - at < n.len() {
        return false;
    }
    let ghost rest = h@.skip(at as int);
    let mut i: usize = 0;
    while i < n.len()
        invariant
            i <= n@.len(),
            at + n@.len() <= h@.len() <= usize::MAX,
            rest == h@.skip(at as int),
            forall|j: int| 0 <= j < i ==> n@[j] == rest[j],
        decreases n.len() - i,
    {
        if h[at + i] != n[i] {
            assert(rest[i as int] != n@[i as int]);
            assert(rest.subrange(0, n@.len() as int)[i as int] == rest[i as int]);
            return false;
        }
        i += 1;
    }
    assert(n@ =~= rest.subrange(0, n@.len() as int));
    true
}

pub fn find_text(h: &str, n: &str) -> (r: Option<usize>)
    ensures
        match r {
            Some(i) => find(h@, n@) == Some(i as nat),
            None => find(h@, n@) is None,
        },
{
    let hay = chars_of(h);
    let needle = chars_of(n);
    let mut i: usize = 0;
    assert(h@.skip(0) =~= h@);
    loop
        invariant
            hay@ == h@,
            needle@ == n@,
            i <= hay@.len(),
            find(h@, n@) == (match find(h@.skip(i as int), n@) {
                Some(k) => Some((k + i) as nat),
                None => None,
            }),
        decreases hay.len() - i,
    {
        if occurs_at(&hay, &needle, i) {
            return Some(i);
        }
        if i == hay.len() {
            return None;
        }
        assert(h@.skip(i as int).drop_first() =~= h@.skip(i + 1));
        i += 1;
    }
}

/// The white space that `s` starts with.
pub open spec fn leading_space(s: Seq<char>) -> Seq<char> {
    s.take(s.len() - trim_start(s).len())
}

/// A text in two: the white space that it starts with, and the rest.
pub fn split_leading_space(s: &str) -> (r: (String, String))
    ensures
        r.0@ == leading_space(s@),
        r.1@ == trim_start(s@),
{
    let chars = chars_of(s);
    let mut n: usize = 0;
    assert(s@.skip(0) =~= s@);
    while n < chars.len() && is_space_char(chars[n])
        invariant
            chars@ == s@,
            n <= chars@.len(),
            trim_start(s@.skip(n as int)) == trim_start(s@),
        decreases chars.len() - n,
    {
        assert(s@.skip(n as int).drop_first() =~= s@.skip(n + 1));
        n += 1;
    }
    assert(s@.skip(n as int) == trim_start(s@));
    let space = string_of(&chars, 0, n);
    let rest = string_of(&chars, n, chars.len());
    assert(space@ =~= leading_space(s@));
    assert(rest@ =~= s@.skip(n as int));
    (space, rest)
}

// ── Lines ────────────────────────────────────────────────────────────────────

/// A line without the carriage return that belongs to its ending.
pub open spec fn without_return(s: Seq<char>) -> Seq<char> {
    if s.len() > 0 && s.last() == '\r' {
        s.drop_last()
    } else {
        s
    }
}

/// The place of the first line feed at or after `from`.
pub open spec fn line_end(s: Seq<char>, from: int) -> int
    decreases s.len() - from,
{
    if from < 0 || from >= s.len() || s[from] == '\n' {
        from
    } else {
        line_end(s, from + 1)
    }
}

/// The lines of `s` from the character at `from` on. A line ends with a line feed, or
/// a carriage return and a line feed; the last one may lack its ending.
pub open spec fn lines_from(s: Seq<char>, from: int) -> Seq<Seq<char>>
    decreases s.len() - from,
    when 0 <= from
    via lines_from_decreases
{
    if from >= s.len() {
        Seq::empty()
    } else if line_end(s, from) >= s.len() {
        seq![s.subrange(from, s.len() as int)]
    } else {
        seq![without_return(s.subrange(from, line_end(s, from)))] + lines_from(s, line_end(s, from) + 1)
    }
}

#[via_fn]
proof fn lines_from_decreases(s: Seq<char>, from: int) {
    lemma_line_end(s, from);
}

/// The end of a line is at or after its start.
pub proof fn lemma_line_end(s: Seq<char>, from: int)
    requires
        0 <= from,
    ensures
        from <= line_end(s, from),
        from <= s.len() ==> line_end(s, from) <= s.len(),
    decreases s.len() - from,
{
    if from < s.len() && s[from] != '\n' {
        lemma_line_end(s, from + 1);
    }
}

/// The lines of a text.
pub open spec fn lines(s: Seq<char>) -> Seq<Seq<char>> {
    lines_from(s, 0)
}

pub fn lines_text(s: &str) -> (r: Vec<String>)
    ensures
        views(r@) == lines(s@),
{
    broadcast use group_views;
    let chars = chars_of(s);
    let mut out: Vec<String> = Vec::new();
    let mut from: usize = 0;
    assert(views(out@) + lines_from(s@, 0) =~= lines(s@));
    while from < chars.len()
        invariant
            chars@ == s@,
            from <= chars@.len(),
            views(out@) + lines_from(s@, from as int) == lines(s@),
        decreases chars.len() - from,
    {
        let mut end: usize = from;
        while end < chars.len() && chars[end] != '\n'
            invariant
                chars@ == s@,
                from <= end <= chars@.len(),
                line_end(s@, end as int) == line_end(s@, from as int),
            decreases chars.len() - end,
        {
            end += 1;
        }
        let ghost before = views(out@);
        if end == chars.len() {
            let line = string_of(&chars, from, end);
            out.push(line);
            assert(before + seq![line@] =~= before.push(line@));
            assert(lines_from(s@, from as int) =~= seq![line@]);
            assert(views(out@) + Seq::<Seq<char>>::empty() =~= views(out@));
            from = end;
        } else {
            let stop: usize = if end > from && chars[end - 1] == '\r' {
                end - 1
            } else {
                end
            };
            let line = string_of(&chars, from, stop);
            assert(line@ =~= without_return(s@.subrange(from as int, end as int)));
            out.push(line);
            assert(before + (seq![line@] + lines_from(s@, end + 1)) =~= before.push(line@) + lines_from(s@, end + 1));
            from = end + 1;
        }
    }
    assert(views(out@) + lines_from(s@, from as int) =~= views(out@));
    out
}

// ── Words ────────────────────────────────────────────────────────────────────

/// The words of `s` that white space ends, and the characters after it.
pub open spec fn words_and_rest(s: Seq<char>) -> (Seq<Seq<char>>, Seq<char>)
    decreases s.len(),
{
    if s.len() == 0 {
        (Seq::empty(), Seq::empty())
    } else {
        let (words, rest) = words_and_rest(s.drop_last());
        if !is_space(s.last()) {
            (words, rest.push(s.last()))
        } else if rest.len() == 0 {
            (words, rest)
        } else {
            (words.push(rest), Seq::empty())
        }
    }
}

/// The words of a text: what stands between white space.
pub open spec fn words(s: Seq<char>) -> Seq<Seq<char>> {
    let (words, rest) = words_and_rest(s);
    if rest.len() == 0 {
        words
    } else {
        words.push(rest)
    }
}

pub fn words_text(s: &str) -> (r: Vec<String>)
    ensures
        views(r@) == words(s@),
{
    broadcast use group_views;
    let chars = chars_of(s);
    let mut out: Vec<String> = Vec::new();
    let mut rest = String::new();
    let mut i: usize = 0;
    assert(s@.take(0).len() == 0);
    assert(rest@ =~= Seq::<char>::empty());
    while i < chars.len()
        invariant
            chars@ == s@,
            i <= chars@.len(),
            (views(out@), rest@) == words_and_rest(s@.take(i as int)),
        decreases chars.len() - i,
    {
        assert(s@.take(i + 1).drop_last() =~= s@.take(i as int));
        assert(s@.take(i + 1).last() == chars@[i as int]);
        if !is_space_char(chars[i]) {
            rest.push(chars[i]);
        } else if rest.as_str().unicode_len() > 0 {
            out.push(rest);
            rest = String::new();
            assert(rest@ =~= Seq::<char>::empty());
        }
        i += 1;
    }
    assert(s@.take(s@.len() as int) =~= s@);
    if rest.as_str().unicode_len() > 0 {
        out.push(rest);
    }
    out
}

// ── Letter case ──────────────────────────────────────────────────────────────

/// The upper-case equivalent of an ASCII character.
pub open spec fn ascii_upper(c: char) -> char {
    if 'a' <= c <= 'z' {
        (c as u32 - 32) as char
    } else {
        c
    }
}

/// Whether a text holds nothing but ASCII characters.
pub open spec fn is_ascii(s: Seq<char>) -> bool {
    forall|i: int| 0 <= i < s.len() ==> #[trigger] s[i] <= '\u{7f}'
}

/// The upper-case equivalent of a text that is not all ASCII, where one character can
/// become several.
pub uninterp spec fn unicode_upper_case(s: Seq<char>) -> Seq<char>;

/// The upper-case equivalent of a text.
pub open spec fn upper_case(s: Seq<char>) -> Seq<char> {
    if is_ascii(s) {
        s.map_values(|c: char| ascii_upper(c))
    } else {
        unicode_upper_case(s)
    }
}

/// `str::to_uppercase`: the text in upper case, ASCII letters one by one. What becomes
/// of other letters is left to the Unicode tables of the standard library.
#[verifier::external_body]
pub(crate) fn upper_case_text(s: &str) -> (r: String)
    ensures
        r@ == upper_case(s@),
        !is_ascii(s@) ==> r@ == unicode_upper_case(s@),
{
    s.to_uppercase()
}

} // verus!
