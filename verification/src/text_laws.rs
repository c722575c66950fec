//! What holds of texts: searching, cutting, joining and writing numbers.

use vstd::prelude::*;

use crate::text;

verus! {

// ── Numbers ──────────────────────────────────────────────────────────────────

/// A number is written with digits alone, and without a zero before them; with
/// `decimal_reads_back` and `hexadecimal_reads_back` this fixes how it is written.
pub proof fn numbers_have_no_leading_zeros(n: nat)
    ensures
        text::decimal(n).len() > 0,
        text::hex(n).len() > 0,
        forall|i: int| 0 <= i < text::decimal(n).len() ==> '0' <= #[trigger] text::decimal(n)[i] && text::decimal(n)[i] <= '9',
        forall|i: int|
            0 <= i < text::hex(n).len() ==> ('0' <= #[trigger] text::hex(n)[i] && text::hex(n)[i] <= '9') || ('a'
                <= text::hex(n)[i] && text::hex(n)[i] <= 'f'),
        n > 0 ==> text::decimal(n)[0] != '0' && text::hex(n)[0] != '0',
        n == 0 ==> text::decimal(n).len() == 1 && text::hex(n).len() == 1,
{
    lemma_digits(n, 10);
    lemma_digits(n, 16);
}

proof fn lemma_digits(n: nat, radix: nat)
    requires
        radix == 10 || radix == 16,
    ensures
        text::digits(n, radix).len() > 0,
        forall|i: int|
            0 <= i < text::digits(n, radix).len() ==> ('0' <= #[trigger] text::digits(n, radix)[i] && text::digits(
                n,
                radix,
            )[i] <= '9') || (radix == 16 && 'a' <= text::digits(n, radix)[i] && text::digits(n, radix)[i] <= 'f'),
        n > 0 ==> text::digits(n, radix)[0] != '0',
        n == 0 ==> text::digits(n, radix).len() == 1,
    decreases n,
{
    if n >= radix {
        vstd::arithmetic::div_mod::lemma_div_decreases(n as int, radix as int);
        vstd::arithmetic::div_mod::lemma_mod_bound(n as int, radix as int);
        vstd::arithmetic::div_mod::lemma_fundamental_div_mod(n as int, radix as int);
        lemma_digits(n / radix, radix);
        let before = text::digits(n / radix, radix);
        let all = text::digits(n, radix);
        assert(n / radix > 0) by (nonlinear_arith)
            requires
                n >= radix,
                radix == 10 || radix == 16,
        ;
        assert forall|i: int| 0 <= i < all.len() implies ('0' <= #[trigger] all[i] && all[i] <= '9') || (radix == 16 && 'a'
            <= all[i] && all[i] <= 'f') by {
            if i < before.len() {
                assert(all[i] == before[i]);
            }
        }
        assert(all[0] == before[0]);
    }
}

/// A number is padded with zeros on the left to the width that is asked for.
pub proof fn padded_numbers(n: nat, width: nat)
    ensures
        text::hex(n).len() >= width ==> text::hex_padded(n, width) == text::hex(n),
        text::hex(n).len() < width ==> text::hex_padded(n, width).len() == width && text::hex(n).is_suffix_of(
            text::hex_padded(n, width),
        ) && forall|i: int| 0 <= i < width - text::hex(n).len() ==> #[trigger] text::hex_padded(n, width)[i] == '0',
{
    let h = text::hex(n);
    if h.len() < width {
        let all = text::hex_padded(n, width);
        assert(all.subrange(all.len() - h.len(), all.len() as int) =~= h);
    }
}

/// Padding keeps the text at its side, and fills the rest.
pub proof fn padding_keeps_the_text(s: Seq<char>, width: nat, c: char)
    ensures
        s.is_suffix_of(text::pad_left(s, width, c)),
        s.is_prefix_of(text::pad_right(s, width)),
        text::pad_left(s, width, c).len() == (if s.len() >= width {
            s.len()
        } else {
            width
        }),
        text::pad_right(s, width).len() == (if s.len() >= width {
            s.len()
        } else {
            width
        }),
        forall|i: int| 0 <= i < width - s.len() ==> #[trigger] text::pad_left(s, width, c)[i] == c,
        forall|i: int| s.len() <= i < width ==> #[trigger] text::pad_right(s, width)[i] == ' ',
{
    let l = text::pad_left(s, width, c);
    let r = text::pad_right(s, width);
    assert(l.subrange(l.len() - s.len(), l.len() as int) =~= s);
    assert(r.subrange(0, s.len() as int) =~= s);
}

// ── Searching and cutting ────────────────────────────────────────────────────

/// What is found is the first occurrence, and nothing is found only where there is none.
pub proof fn the_first_occurrence_is_found(h: Seq<char>, n: Seq<char>)
    ensures
        match text::find(h, n) {
            Some(i) => {
                &&& i + n.len() <= h.len()
                &&& h.subrange(i as int, (i + n.len()) as int) == n
                &&& forall|j: int| 0 <= j < i ==> #[trigger] h.subrange(j, j + n.len()) != n
            },
            None => forall|j: int| 0 <= j && j + n.len() <= h.len() ==> #[trigger] h.subrange(j, j + n.len()) != n,
        },
    decreases h.len(),
{
    text::lemma_find_within(h, n);
    if n.is_prefix_of(h) {
    } else if h.len() > 0 {
        let rest = h.drop_first();
        the_first_occurrence_is_found(rest, n);
        match text::find(rest, n) {
            Some(k) => {
                assert forall|j: int| 0 <= j < k + 1 implies #[trigger] h.subrange(j, j + n.len()) != n by {
                    if j > 0 {
                        assert(rest.subrange(j - 1, j - 1 + n.len()) =~= h.subrange(j, j + n.len()));
                    } else {
                        assert(!n.is_prefix_of(h));
                    }
                }
            },
            None => {
                assert forall|j: int| 0 <= j && j + n.len() <= h.len() implies #[trigger] h.subrange(j, j + n.len())
                    != n by {
                    if j > 0 {
                        assert(rest.subrange(j - 1, j - 1 + n.len()) =~= h.subrange(j, j + n.len()));
                    }
                }
            },
        }
    } else {
        assert forall|j: int| 0 <= j && j + n.len() <= h.len() implies #[trigger] h.subrange(j, j + n.len()) != n by {
            assert(j == 0);
        }
    }
}

/// A text is cut at its end exactly by what it ends with, and at its start likewise.
pub proof fn cutting_gives_back_the_rest(s: Seq<char>, p: Seq<char>, rest: Seq<char>)
    ensures
        text::strip_suffix(s, p) == Some(rest) <==> s == rest + p,
        text::strip_prefix(s, p) == Some(rest) <==> s == p + rest,
{
    if p.is_suffix_of(s) {
        assert(s =~= s.take(s.len() - p.len()) + p);
        if s == rest + p {
            assert(s.take(s.len() - p.len()) =~= rest);
        }
    } else if s == rest + p {
        assert(s.subrange(s.len() - p.len(), s.len() as int) =~= p);
    }
    if p.is_prefix_of(s) {
        assert(s =~= p + s.skip(p.len() as int));
        if s == p + rest {
            assert(s.skip(p.len() as int) =~= rest);
        }
    } else if s == p + rest {
        assert(s.subrange(0, p.len() as int) =~= p);
    }
}

/// Whether a text is all white space.
pub open spec fn all_space(s: Seq<char>) -> bool {
    forall|i: int| 0 <= i < s.len() ==> text::is_space(#[trigger] s[i])
}

/// Among ASCII characters the white space is the space and the five controls from the
/// tabulator to the carriage return.
pub proof fn ascii_white_space(c: char)
    requires
        c <= '\u{7f}',
    ensures
        text::is_space(c) <==> c == ' ' || c == '\t' || c == '\n' || c == '\u{b}' || c == '\u{c}' || c == '\r',
{
}

/// Trimming takes away white space, all there is at that end and nothing else.
pub proof fn trimming_takes_white_space(s: Seq<char>)
    ensures
        exists|a: Seq<char>| s == #[trigger] (a + text::trim_start(s)) && all_space(a),
        exists|b: Seq<char>| s == #[trigger] (text::trim_end(s) + b) && all_space(b),
        exists|a: Seq<char>, b: Seq<char>| s == #[trigger] (a + text::trim(s) + b) && all_space(a) && all_space(b),
        text::trim_start(s).len() > 0 ==> !text::is_space(text::trim_start(s)[0]),
        text::trim_end(s).len() > 0 ==> !text::is_space(text::trim_end(s).last()),
        text::trim(s).len() > 0 ==> !text::is_space(text::trim(s)[0]) && !text::is_space(text::trim(s).last()),
{
    lemma_trim_start(s);
    lemma_trim_end(s);
    lemma_trim(s);
}

proof fn lemma_trim_start(s: Seq<char>)
    ensures
        exists|a: Seq<char>| s == #[trigger] (a + text::trim_start(s)) && all_space(a),
        text::trim_start(s).len() > 0 ==> !text::is_space(text::trim_start(s)[0]),
    decreases s.len(),
{
    if s.len() > 0 && text::is_space(s.first()) {
        lemma_trim_start(s.drop_first());
        let a = choose|a: Seq<char>| s.drop_first() == #[trigger] (a + text::trim_start(s.drop_first())) && all_space(a);
        let b = seq![s.first()] + a;
        assert(all_space(b));
        assert(s =~= seq![s.first()] + s.drop_first());
        assert(b + text::trim_start(s) =~= seq![s.first()] + (a + text::trim_start(s)));
        assert(s == b + text::trim_start(s));
    } else {
        assert(s =~= Seq::<char>::empty() + text::trim_start(s));
    }
}

proof fn lemma_trim_end(s: Seq<char>)
    ensures
        exists|b: Seq<char>| s == #[trigger] (text::trim_end(s) + b) && all_space(b),
        text::trim_end(s).len() > 0 ==> !text::is_space(text::trim_end(s).last()),
    decreases s.len(),
{
    if s.len() > 0 && text::is_space(s.last()) {
        lemma_trim_end(s.drop_last());
        let a = choose|a: Seq<char>| s.drop_last() == #[trigger] (text::trim_end(s.drop_last()) + a) && all_space(a);
        let b = a.push(s.last());
        assert(all_space(b));
        assert(s =~= s.drop_last().push(s.last()));
        assert(text::trim_end(s) + b =~= (text::trim_end(s) + a).push(s.last()));
        assert(s == text::trim_end(s) + b);
    } else {
        assert(s =~= text::trim_end(s) + Seq::<char>::empty());
    }
}

proof fn lemma_trim(s: Seq<char>)
    ensures
        exists|a: Seq<char>, b: Seq<char>| s == #[trigger] (a + text::trim(s) + b) && all_space(a) && all_space(b),
        text::trim(s).len() > 0 ==> !text::is_space(text::trim(s)[0]) && !text::is_space(text::trim(s).last()),
{
    let t = text::trim_start(s);
    lemma_trim_start(s);
    lemma_trim_end(t);
    let a = choose|a: Seq<char>| s == #[trigger] (a + t) && all_space(a);
    let b = choose|b: Seq<char>| t == #[trigger] (text::trim_end(t) + b) && all_space(b);
    assert(s =~= a + text::trim(s) + b);
    if text::trim(s).len() > 0 {
        assert(text::trim(s)[0] == t[0]);
    }
}

// ── Letter case ──────────────────────────────────────────────────────────────

/// The upper case of an ASCII text has a capital for each small letter, and is the same
/// everywhere else.
pub proof fn upper_case_goes_letter_by_letter(s: Seq<char>, i: int)
    requires
        forall|k: int| 0 <= k < s.len() ==> #[trigger] s[k] <= '\u{7f}',
        0 <= i < s.len(),
    ensures
        text::upper_case(s).len() == s.len(),
        'a' <= s[i] && s[i] <= 'z' ==> 'A' <= text::upper_case(s)[i] && text::upper_case(s)[i] <= 'Z' && text::upper_case(
            s,
        )[i] as int - 'A' as int == s[i] as int - 'a' as int,
        !('a' <= s[i] && s[i] <= 'z') ==> text::upper_case(s)[i] == s[i],
{
}

// ── Joining ──────────────────────────────────────────────────────────────────

/// One part is joined as it is, none gives nothing, and two lists are joined by joining
/// each, with the separator between them.
pub proof fn joining_puts_separators_between(a: Seq<Seq<char>>, b: Seq<Seq<char>>, sep: Seq<char>)
    ensures
        text::join(Seq::<Seq<char>>::empty(), sep).len() == 0,
        a.len() == 1 ==> text::join(a, sep) == a[0],
        a.len() > 0 && b.len() > 0 ==> text::join(a + b, sep) == text::join(a, sep) + sep + text::join(b, sep),
    decreases b.len(),
{
    if a.len() > 0 && b.len() > 0 {
        assert((a + b).drop_last() =~= a + b.drop_last());
        assert((a + b).last() == b.last());
        if b.len() == 1 {
            assert(a + b.drop_last() =~= a);
        } else {
            joining_puts_separators_between(a, b.drop_last(), sep);
            assert(text::join(a + b, sep) =~= text::join(a, sep) + sep + text::join(b, sep));
        }
    }
}

// ── Lines ────────────────────────────────────────────────────────────────────

proof fn lemma_line_end(s: Seq<char>, from: int)
    requires
        0 <= from <= s.len(),
    ensures
        from <= text::line_end(s, from) <= s.len(),
        forall|i: int| from <= i < text::line_end(s, from) ==> #[trigger] s[i] != '\n',
        text::line_end(s, from) < s.len() ==> s[text::line_end(s, from)] == '\n',
    decreases s.len() - from,
{
    if from < s.len() && s[from] != '\n' {
        lemma_line_end(s, from + 1);
    }
}

/// The lines of a text are what stands between its line feeds: the first line ends at the
/// first line feed, with a carriage return before it left out, and the lines of the rest
/// follow; a text without one is one line, and no text has none.
pub proof fn lines_end_at_line_feeds(head: Seq<char>, rest: Seq<char>)
    requires
        forall|i: int| 0 <= i < head.len() ==> #[trigger] head[i] != '\n',
    ensures
        text::lines(Seq::<char>::empty()).len() == 0,
        head.len() > 0 ==> text::lines(head) == seq![head],
        text::lines(head + seq!['\n'] + rest) == seq![
            if head.len() > 0 && head.last() == '\r' {
                head.drop_last()
            } else {
                head
            },
        ] + text::lines(rest),
{
    lemma_line_end(head, 0);
    if head.len() > 0 {
        assert(head.subrange(0, head.len() as int) =~= head);
        assert(text::lines(head) =~= seq![head]);
    }
    let s = head + seq!['\n'] + rest;
    lemma_line_end(s, 0);
    let n = head.len() as int;
    assert(s[n] == '\n');
    assert forall|i: int| 0 <= i < n implies s[i] == head[i] by {}
    let e = text::line_end(s, 0);
    assert(e == n) by {
        if e < n {
            assert(s[e] == head[e]);
        }
    }
    assert(s.subrange(0, n) =~= head);
    lemma_shifted(s, rest, n + 1, 0);
    assert(s.skip(n + 1) =~= rest);
    assert(text::lines(s) =~= seq![
        if head.len() > 0 && head.last() == '\r' {
            head.drop_last()
        } else {
            head
        },
    ] + text::lines(rest));
}

proof fn lemma_shifted_end(s: Seq<char>, rest: Seq<char>, by: int, from: int)
    requires
        0 <= by <= s.len(),
        s.skip(by) == rest,
        0 <= from <= rest.len(),
    ensures
        text::line_end(s, by + from) == by + text::line_end(rest, from),
    decreases rest.len() - from,
{
    if from < rest.len() {
        assert(s[by + from] == rest[from]);
        if rest[from] != '\n' {
            lemma_shifted_end(s, rest, by, from + 1);
        }
    }
}

proof fn lemma_shifted(s: Seq<char>, rest: Seq<char>, by: int, from: int)
    requires
        0 <= by <= s.len(),
        s.skip(by) =~= rest,
        0 <= from <= rest.len(),
    ensures
        text::lines_from(s, by + from) == text::lines_from(rest, from),
    decreases rest.len() - from,
{
    if from < rest.len() {
        lemma_shifted_end(s, rest, by, from);
        lemma_line_end(rest, from);
        let e = text::line_end(rest, from);
        assert(s.subrange(by + from, by + e) =~= rest.subrange(from, e));
        if e < rest.len() {
            lemma_shifted(s, rest, by, e + 1);
        } else {
            assert(s.subrange(by + from, s.len() as int) =~= rest.subrange(from, rest.len() as int));
        }
    }
}

// ── Words and parts ──────────────────────────────────────────────────────────

/// A text that ends in a white space is cut into words there: the words before it and the
/// words behind it follow each other. A text without white space is one word, and an empty
/// one none.
pub proof fn words_stand_between_white_space(a: Seq<char>, c: char, b: Seq<char>)
    requires
        text::is_space(c),
    ensures
        text::words(a.push(c) + b) == text::words(a) + text::words(b),
        text::words(Seq::<char>::empty()).len() == 0,
        a.len() > 0 && (forall|i: int| 0 <= i < a.len() ==> !text::is_space(#[trigger] a[i])) ==> text::words(a)
            == seq![a],
{
    lemma_words(a, c, b);
    if a.len() > 0 && (forall|i: int| 0 <= i < a.len() ==> !text::is_space(#[trigger] a[i])) {
        lemma_one_word(a);
        assert(text::words(a) =~= seq![a]);
    }
    assert(text::words(a.push(c) + b) =~= text::words(a) + text::words(b));
}

proof fn lemma_words(a: Seq<char>, c: char, b: Seq<char>)
    requires
        text::is_space(c),
    ensures
        text::words_and_rest(a.push(c) + b).0 == text::words(a) + text::words_and_rest(b).0,
        text::words_and_rest(a.push(c) + b).1 == text::words_and_rest(b).1,
    decreases b.len(),
{
    let s = a.push(c) + b;
    if b.len() == 0 {
        assert(s =~= a.push(c));
        assert(s.drop_last() =~= a);
        assert(s.last() == c);
        assert(text::words_and_rest(b).0.len() == 0);
        assert(text::words_and_rest(s).0 =~= text::words(a) + text::words_and_rest(b).0);
    } else {
        lemma_words(a, c, b.drop_last());
        assert(s.drop_last() =~= a.push(c) + b.drop_last());
        assert(s.last() == b.last());
        assert(text::words_and_rest(s).0 =~= text::words(a) + text::words_and_rest(b).0);
    }
}

proof fn lemma_one_word(a: Seq<char>)
    requires
        forall|i: int| 0 <= i < a.len() ==> !text::is_space(#[trigger] a[i]),
    ensures
        text::words_and_rest(a).0.len() == 0,
        text::words_and_rest(a).1 == a,
    decreases a.len(),
{
    if a.len() > 0 {
        let rest = a.drop_last();
        assert forall|i: int| 0 <= i < rest.len() implies !text::is_space(#[trigger] rest[i]) by {
            assert(rest[i] == a[i]);
        }
        assert(!text::is_space(a[a.len() - 1]));
        lemma_one_word(rest);
        assert(rest.push(a.last()) =~= a);
    } else {
        assert(text::words_and_rest(a).1 =~= a);
    }
}

/// A text is split at a character: the parts before it and the parts behind it follow each
/// other. A text without it is one part.
pub proof fn parts_stand_between_separators(a: Seq<char>, c: char, b: Seq<char>)
    ensures
        text::split(a.push(c) + b, c) == text::split(a, c) + text::split(b, c),
        (forall|i: int| 0 <= i < a.len() ==> #[trigger] a[i] != c) ==> text::split(a, c) == seq![a],
{
    lemma_cut(a, c, b);
    assert(text::split(a.push(c) + b, c) =~= text::split(a, c) + text::split(b, c));
    if forall|i: int| 0 <= i < a.len() ==> #[trigger] a[i] != c {
        lemma_uncut(a, c);
        assert(text::split(a, c) =~= seq![a]);
    }
}

proof fn lemma_cut(a: Seq<char>, c: char, b: Seq<char>)
    ensures
        text::cut(a.push(c) + b, c).0 == text::split(a, c) + text::cut(b, c).0,
        text::cut(a.push(c) + b, c).1 == text::cut(b, c).1,
    decreases b.len(),
{
    let s = a.push(c) + b;
    if b.len() == 0 {
        assert(s =~= a.push(c));
        assert(s.drop_last() =~= a);
        assert(s.last() == c);
        assert(text::cut(b, c).0.len() == 0);
        assert(text::cut(s, c).0 =~= text::split(a, c) + text::cut(b, c).0);
    } else {
        lemma_cut(a, c, b.drop_last());
        assert(s.drop_last() =~= a.push(c) + b.drop_last());
        assert(s.last() == b.last());
        assert(text::cut(s, c).0 =~= text::split(a, c) + text::cut(b, c).0);
    }
}

proof fn lemma_uncut(a: Seq<char>, c: char)
    requires
        forall|i: int| 0 <= i < a.len() ==> #[trigger] a[i] != c,
    ensures
        text::cut(a, c).0.len() == 0,
        text::cut(a, c).1 == a,
    decreases a.len(),
{
    if a.len() > 0 {
        let rest = a.drop_last();
        assert forall|i: int| 0 <= i < rest.len() implies #[trigger] rest[i] != c by {
            assert(rest[i] == a[i]);
        }
        assert(a[a.len() - 1] != c);
        lemma_uncut(rest, c);
        assert(rest.push(a.last()) =~= a);
    } else {
        assert(text::cut(a, c).1 =~= a);
    }
}

} // verus!
