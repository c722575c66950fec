//! Integer literals of C.

use vstd::prelude::*;

use crate::text;

verus! {

/// The value of the digit `c` in base `radix`.
pub open spec fn digit_value(c: char, radix: nat) -> Option<nat> {
    let d: int = if '0' <= c <= '9' {
        c as int - '0' as int
    } else if 'a' <= c <= 'z' {
        c as int - 'a' as int + 10
    } else if 'A' <= c <= 'Z' {
        c as int - 'A' as int + 10
    } else {
        radix as int
    };
    if d < radix {
        Some(d as nat)
    } else {
        None
    }
}

/// The number that the digits of `s` spell in base `radix`, where all are digits.
pub open spec fn digits_value(s: Seq<char>, radix: nat) -> Option<nat>
    decreases s.len(),
{
    if s.len() == 0 {
        Some(0)
    } else {
        match (digits_value(s.drop_last(), radix), digit_value(s.last(), radix)) {
            (Some(n), Some(d)) => Some(n * radix + d),
            _ => None,
        }
    }
}

/// The unsigned integer that `s` spells in base `radix`: digits, at least one, with
/// an optional plus sign before them, that fit in sixty-four bits.
pub open spec fn unsigned(s: Seq<char>, radix: nat) -> Option<u64> {
    let rest = if s.len() > 0 && s[0] == '+' {
        s.drop_first()
    } else {
        s
    };
    match digits_value(rest, radix) {
        Some(n) if rest.len() > 0 && n <= u64::MAX => Some(n as u64),
        _ => None,
    }
}

/// `s` without the type suffix of a C integer literal.
pub open spec fn without_suffix(s: Seq<char>) -> Seq<char>
    decreases s.len(),
{
    if s.len() > 0 && (s.last() == 'u' || s.last() == 'U' || s.last() == 'l' || s.last() == 'L') {
        without_suffix(s.drop_last())
    } else {
        s
    }
}

/// The value of a C integer literal: hexadecimal after `0x`, binary after `0b`,
/// decimal otherwise.
pub open spec fn number_literal(s: Seq<char>) -> Option<u64> {
    let t = without_suffix(s);
    if "0x"@.is_prefix_of(t) || "0X"@.is_prefix_of(t) {
        unsigned(t.skip(2), 16)
    } else if "0b"@.is_prefix_of(t) || "0B"@.is_prefix_of(t) {
        unsigned(t.skip(2), 2)
    } else {
        unsigned(t, 10)
    }
}

fn digit_value_of(c: char, radix: u64) -> (r: Option<u64>)
    requires
        radix <= 16,
    ensures
        match r {
            Some(d) => digit_value(c, radix as nat) == Some(d as nat) && d < radix,
            None => digit_value(c, radix as nat) is None,
        },
{
    let d: u64 = if '0' <= c && c <= '9' {
        c as u64 - '0' as u64
    } else if 'a' <= c && c <= 'z' {
        c as u64 - 'a' as u64 + 10
    } else if 'A' <= c && c <= 'Z' {
        c as u64 - 'A' as u64 + 10
    } else {
        radix
    };
    if d < radix {
        Some(d)
    } else {
        None
    }
}

/// Digits only add to the value that the digits before them spell.
proof fn lemma_digits_grow(s: Seq<char>, n: int, radix: nat)
    requires
        0 <= n <= s.len(),
        radix >= 1,
    ensures
        digits_value(s, radix) matches Some(v) ==> (digits_value(s.take(n), radix) matches Some(w) && w <= v),
    decreases s.len(),
{
    if n < s.len() {
        lemma_digits_grow(s.drop_last(), n, radix);
        assert(s.drop_last().take(n) =~= s.take(n));
        if let Some(w) = digits_value(s.drop_last(), radix) {
            assert(w <= w * radix) by (nonlinear_arith)
                requires
                    radix >= 1,
            ;
        }
    } else {
        assert(s.take(n) =~= s);
    }
}

fn parse_unsigned(chars: &[char], from: usize, to: usize, radix: u64) -> (r: Option<u64>)
    requires
        from <= to <= chars@.len(),
        2 <= radix <= 16,
    ensures
        r == unsigned(chars@.subrange(from as int, to as int), radix as nat),
{
    let ghost all = chars@.subrange(from as int, to as int);
    let start: usize = if from < to && chars[from] == '+' {
        from + 1
    } else {
        from
    };
    let ghost rest = chars@.subrange(start as int, to as int);
    proof {
        if start > from {
            assert(all.drop_first() =~= rest);
        }
    }
    if start == to {
        return None;
    }
    let mut n: u64 = 0;
    let mut i: usize = start;
    assert(rest.take(0) =~= Seq::<char>::empty());
    while i < to
        invariant
            from <= start <= i <= to <= chars@.len(),
            2 <= radix <= 16,
            rest == chars@.subrange(start as int, to as int),
            digits_value(rest.take(i - start), radix as nat) == Some(n as nat),
            rest.len() > 0,
            all == chars@.subrange(from as int, to as int),
            rest == (if all.len() > 0 && all[0] == '+' {
                all.drop_first()
            } else {
                all
            }),
        decreases to - i,
    {
        proof {
            lemma_digits_grow(rest, i - start + 1, radix as nat);
            assert(rest.take(i - start + 1).drop_last() =~= rest.take(i - start));
            assert(rest.take(i - start + 1).last() == chars@[i as int]);
        }
        match digit_value_of(chars[i], radix) {
            None => {
                return None;
            },
            Some(d) => {
                match n.checked_mul(radix) {
                    None => {
                        return None;
                    },
                    Some(m) => match m.checked_add(d) {
                        None => {
                            return None;
                        },
                        Some(m) => {
                            n = m;
                        },
                    },
                }
            },
        }
        i += 1;
    }
    assert(rest.take(rest.len() as int) =~= rest);
    Some(n)
}

/// The unsigned integer that `s` spells in base `radix`.
pub(crate) fn unsigned_of(s: &str, radix: u64) -> (r: Option<u64>)
    requires
        2 <= radix <= 16,
    ensures
        r == unsigned(s@, radix as nat),
{
    let chars = text::chars_of(s);
    assert(chars@.subrange(0, chars@.len() as int) =~= s@);
    parse_unsigned(&chars, 0, chars.len(), radix)
}

/// A text of two characters begins another one exactly if its characters do.
pub proof fn lemma_prefix_of_two(p: Seq<char>, t: Seq<char>)
    requires
        p.len() == 2,
        t.len() >= 2,
    ensures
        p.is_prefix_of(t) == (t[0] == p[0] && t[1] == p[1]),
{
    assert(t.subrange(0, 2)[0] == t[0]);
    assert(t.subrange(0, 2)[1] == t[1]);
    if t[0] == p[0] && t[1] == p[1] {
        assert(t.subrange(0, 2) =~= p);
    }
}

/// The value of a C integer literal, or `None` where `text` is none or its value
/// does not fit in sixty-four bits.
pub fn parse_number_literal(text: &str) -> (r: Option<u64>)
    ensures
        r == number_literal(text@),
{
    let chars = text::chars_of(text);
    let mut to: usize = chars.len();
    assert(text@.take(to as int) =~= text@);
    while to > 0 && (chars[to - 1] == 'u' || chars[to - 1] == 'U' || chars[to - 1] == 'l' || chars[to - 1] == 'L')
        invariant
            chars@ == text@,
            to <= chars@.len(),
            without_suffix(text@.take(to as int)) == without_suffix(text@),
        decreases to,
    {
        assert(text@.take(to as int).drop_last() =~= text@.take(to - 1));
        to -= 1;
    }
    let ghost t = without_suffix(text@);
    assert(t == text@.take(to as int));
    proof {
        reveal_strlit("0x");
        reveal_strlit("0X");
        reveal_strlit("0b");
        reveal_strlit("0B");
        assert(t =~= chars@.subrange(0, to as int));
        if to >= 2 {
            assert(t.skip(2) =~= chars@.subrange(2, to as int));
            lemma_prefix_of_two("0x"@, t);
            lemma_prefix_of_two("0X"@, t);
            lemma_prefix_of_two("0b"@, t);
            lemma_prefix_of_two("0B"@, t);
        }
    }
    if to >= 2 && chars[0] == '0' && (chars[1] == 'x' || chars[1] == 'X') {
        parse_unsigned(&chars, 2, to, 16)
    } else if to >= 2 && chars[0] == '0' && (chars[1] == 'b' || chars[1] == 'B') {
        parse_unsigned(&chars, 2, to, 2)
    } else {
        parse_unsigned(&chars, 0, to, 10)
    }
}

// ── What holds of every literal ──────────────────────────────────────────────

proof fn lemma_digit_reads_back(d: nat, radix: nat)
    requires
        d < radix <= 16,
    ensures
        digit_value(text::digit_char(d), radix) == Some(d),
{
}

proof fn lemma_digits_read_back(n: nat, radix: nat)
    requires
        2 <= radix <= 16,
    ensures
        digits_value(text::digits(n, radix), radix) == Some(n),
        text::digits(n, radix).len() > 0,
        forall|i: int|
            0 <= i < text::digits(n, radix).len() ==> exists|d: nat|
                d < radix && #[trigger] text::digits(n, radix)[i] == text::digit_char(d),
    decreases n,
{
    reveal_with_fuel(digits_value, 2);
    if n < radix {
        lemma_digit_reads_back(n, radix);
        let all = text::digits(n, radix);
        assert(all.drop_last() =~= Seq::<char>::empty());
        assert(0 * radix == 0) by (nonlinear_arith);
        assert(all.last() == text::digit_char(n));
        assert(digits_value(all.drop_last(), radix) == Some(0nat));
    } else {
        vstd::arithmetic::div_mod::lemma_div_decreases(n as int, radix as int);
        vstd::arithmetic::div_mod::lemma_fundamental_div_mod(n as int, radix as int);
        vstd::arithmetic::div_mod::lemma_mod_bound(n as int, radix as int);
        vstd::arithmetic::mul::lemma_mul_is_commutative(radix as int, (n / radix) as int);
        lemma_digits_read_back(n / radix, radix);
        lemma_digit_reads_back(n % radix, radix);
        let before = text::digits(n / radix, radix);
        let all = text::digits(n, radix);
        assert(all.drop_last() =~= before);
        assert(all.last() == text::digit_char(n % radix));
        assert((n / radix) * radix + n % radix == n);
        assert forall|i: int| 0 <= i < all.len() implies exists|d: nat|
            d < radix && #[trigger] all[i] == text::digit_char(d) by {
            if i < before.len() {
                assert(all[i] == before[i]);
            } else {
                assert(all[i] == text::digit_char(n % radix));
            }
        }
    }
}

proof fn lemma_no_suffix(s: Seq<char>)
    requires
        s.len() > 0,
        exists|d: nat| d < 16 && s.last() == #[trigger] text::digit_char(d),
    ensures
        without_suffix(s) == s,
{
}

/// A number in decimal reads back as that number, with or without the suffix `u`.
pub proof fn decimal_reads_back(n: u64)
    ensures
        number_literal(text::decimal(n as nat)) == Some(n),
        number_literal(text::decimal(n as nat).push('u')) == Some(n),
{
    let s = text::decimal(n as nat);
    lemma_digits_read_back(n as nat, 10);
    assert(s.last() == s[s.len() - 1]);
    let d = choose|d: nat| d < 10 && s[s.len() - 1] == text::digit_char(d);
    assert(s.last() == text::digit_char(d));
    lemma_no_suffix(s);
    assert(s.push('u').drop_last() =~= s);
    reveal_strlit("0x");
    reveal_strlit("0X");
    reveal_strlit("0b");
    reveal_strlit("0B");
    if s.len() >= 2 {
        let e = choose|e: nat| e < 10 && s[1] == text::digit_char(e);
        assert(s[1] == text::digit_char(e));
        lemma_prefix_of_two("0x"@, s);
        lemma_prefix_of_two("0X"@, s);
        lemma_prefix_of_two("0b"@, s);
        lemma_prefix_of_two("0B"@, s);
    }
    let f = choose|f: nat| f < 10 && s[0] == text::digit_char(f);
    assert(s[0] == text::digit_char(f));
}

/// A number in hexadecimal reads back as that number.
pub proof fn hexadecimal_reads_back(n: u64)
    ensures
        number_literal("0x"@ + text::hex(n as nat)) == Some(n),
{
    let h = text::hex(n as nat);
    let s = "0x"@ + h;
    reveal_strlit("0x");
    lemma_digits_read_back(n as nat, 16);
    let d = choose|d: nat| d < 16 && h[h.len() - 1] == text::digit_char(d);
    assert(h[h.len() - 1] == text::digit_char(d));
    assert(s.last() == h[h.len() - 1]);
    lemma_no_suffix(s);
    assert(s.subrange(0, 2) =~= "0x"@);
    assert(s.skip(2) =~= h);
    let f = choose|f: nat| f < 16 && h[0] == text::digit_char(f);
    assert(h[0] == text::digit_char(f));
}

} // verus!
