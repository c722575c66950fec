//! What a constant expression comes to: its bits, its sums, and the numbers behind literals.

use vstd::prelude::*;

use crate::bits;
use crate::fw_parse;
use crate::literal;
use crate::syntax::SyntaxView;

verus! {

/// The kinds of expressions that are folded.
proof fn lemma_kinds()
    ensures
        "number_literal"@.len() == 14 && "identifier"@.len() == 10 && "parenthesized_expression"@.len() == 24,
        "unary_expression"@.len() == 16 && "binary_expression"@.len() == 17,
{
    reveal_strlit("number_literal");
    reveal_strlit("identifier");
    reveal_strlit("parenthesized_expression");
    reveal_strlit("unary_expression");
    reveal_strlit("binary_expression");
}

/// The operators differ.
proof fn lemma_operators()
    ensures
        "+"@ == seq!['+'] && "-"@ == seq!['-'] && "*"@ == seq!['*'] && "/"@ == seq!['/'] && "%"@ == seq!['%'],
        "|"@ == seq!['|'] && "&"@ == seq!['&'] && "^"@ == seq!['^'] && "~"@ == seq!['~'],
        "<<"@ == seq!['<', '<'] && ">>"@ == seq!['>', '>'],
        "+"@[0] == '+' && "-"@[0] == '-' && "*"@[0] == '*' && "/"@[0] == '/' && "%"@[0] == '%',
        "|"@[0] == '|' && "&"@[0] == '&' && "^"@[0] == '^' && "~"@[0] == '~',
        "<<"@[0] == '<' && ">>"@[0] == '>',
{
    reveal_strlit("+");
    reveal_strlit("-");
    reveal_strlit("*");
    reveal_strlit("/");
    reveal_strlit("%");
    reveal_strlit("|");
    reveal_strlit("&");
    reveal_strlit("^");
    reveal_strlit("~");
    reveal_strlit("<<");
    reveal_strlit(">>");
    assert("+"@ =~= seq!['+'] && "-"@ =~= seq!['-'] && "*"@ =~= seq!['*'] && "/"@ =~= seq!['/'] && "%"@ =~= seq!['%']);
    assert("|"@ =~= seq!['|'] && "&"@ =~= seq!['&'] && "^"@ =~= seq!['^'] && "~"@ =~= seq!['~']);
    assert("<<"@ =~= seq!['<', '<'] && ">>"@ =~= seq!['>', '>']);
}

/// The two to the sixty-fourth.
pub open spec fn modulus() -> int {
    0x1_0000_0000_0000_0000
}

// ── Operators ────────────────────────────────────────────────────────────────

/// A complement has exactly the bits that its operand has not, a negation adds up to
/// nothing with its operand, a plus sign changes nothing, and no other sign has a value.
pub proof fn unary_expressions_fold(
    node: SyntaxView,
    macros: Map<Seq<char>, u64>,
    op: SyntaxView,
    argument: SyntaxView,
    v: u64,
)
    requires
        node.kind == "unary_expression"@,
        node.field("operator"@) == Some(op),
        node.field("argument"@) == Some(argument),
        fw_parse::folded(argument, macros) == Some(v),
    ensures
        op.text == "~"@ ==> (fw_parse::folded(node, macros) matches Some(w) && forall|i: u32|
            i < 64 ==> (#[trigger] bits::bit(w, i) <==> !bits::bit(v, i))),
        op.text == "-"@ ==> (fw_parse::folded(node, macros) matches Some(w) && (v + w == 0 || v + w == modulus())),
        op.text == "+"@ ==> fw_parse::folded(node, macros) == Some(v),
        op.text != "~"@ && op.text != "-"@ && op.text != "+"@ ==> fw_parse::folded(node, macros) is None,
{
    lemma_kinds();
    lemma_operators();
    if op.text == "~"@ {
        let w = !v;
        assert(fw_parse::folded(node, macros) == Some(w));
        assert forall|i: u32| i < 64 implies (#[trigger] bits::bit(w, i) <==> !bits::bit(v, i)) by {
            assert(i < 64 ==> (((!v) >> i) & 1 == 1 <==> (v >> i) & 1 != 1)) by (bit_vector);
        }
    }
}

/// Whether `w` is `l` moved up by `d` bits: each bit has gone that far, and zeros follow.
pub open spec fn moved_up(w: u64, l: u64, d: int) -> bool {
    forall|i: u32| i < 64 ==> (#[trigger] bits::bit(w, i) <==> d <= i && bits::bit(l, (i - d) as u32))
}

/// Whether `w` is `l` moved down by `d` bits.
pub open spec fn moved_down(w: u64, l: u64, d: int) -> bool {
    forall|i: u32| i < 64 ==> (#[trigger] bits::bit(w, i) <==> i + d < 64 && bits::bit(l, (i + d) as u32))
}

proof fn lemma_moved(l: u64, r: u64)
    ensures
        moved_up(l << ((r % 64) as u64), l, (r % 64) as int),
        moved_down(l >> ((r % 64) as u64), l, (r % 64) as int),
{
    let d: u64 = (r % 64) as u64;
    let up = l << d;
    let down = l >> d;
    assert forall|i: u32| i < 64 implies (#[trigger] bits::bit(up, i) <==> d <= i && bits::bit(l, (i - d) as u32)) by {
        let n: u32 = if d <= i {
            (i - d) as u32
        } else {
            0
        };
        assert(i < 64 && d < 64 && (d <= i as u64 ==> n as u64 == i as u64 - d) ==> (((l << d) >> i) & 1 == 1 <==> d
            <= i as u64 && (l >> n) & 1 == 1)) by (bit_vector);
    }
    assert forall|i: u32| i < 64 implies (#[trigger] bits::bit(down, i) <==> i + d < 64 && bits::bit(
        l,
        (i + d) as u32,
    )) by {
        let n: u32 = (i + d) as u32;
        assert(i < 64 && d < 64 && n as u64 == i as u64 + d ==> (((l >> d) >> i) & 1 == 1 <==> n < 64 && (l >> n) & 1
            == 1)) by (bit_vector);
    }
}

/// The value of a binary expression, operator by operator: `|`, `&` and `^` go bit by bit,
/// shifts move the bits by the distance modulo sixty-four, a sum, difference or product is
/// right but for a multiple of two to the sixty-fourth, a quotient and a remainder are
/// those of the division with remainder, which by zero has no value, and no other operator
/// has one.
pub proof fn binary_expressions_fold(
    node: SyntaxView,
    macros: Map<Seq<char>, u64>,
    op: SyntaxView,
    left: SyntaxView,
    right: SyntaxView,
    l: u64,
    r: u64,
)
    requires
        node.kind == "binary_expression"@,
        node.field("operator"@) == Some(op),
        node.field("left"@) == Some(left),
        node.field("right"@) == Some(right),
        fw_parse::folded(left, macros) == Some(l),
        fw_parse::folded(right, macros) == Some(r),
    ensures
        op.text == "|"@ ==> (fw_parse::folded(node, macros) matches Some(w) && forall|i: u32|
            i < 64 ==> (#[trigger] bits::bit(w, i) <==> bits::bit(l, i) || bits::bit(r, i))),
        op.text == "&"@ ==> (fw_parse::folded(node, macros) matches Some(w) && forall|i: u32|
            i < 64 ==> (#[trigger] bits::bit(w, i) <==> bits::bit(l, i) && bits::bit(r, i))),
        op.text == "^"@ ==> (fw_parse::folded(node, macros) matches Some(w) && forall|i: u32|
            i < 64 ==> (#[trigger] bits::bit(w, i) <==> bits::bit(l, i) != bits::bit(r, i))),
        op.text == "<<"@ ==> (fw_parse::folded(node, macros) matches Some(w) && moved_up(w, l, r as int % 64)),
        op.text == ">>"@ ==> (fw_parse::folded(node, macros) matches Some(w) && moved_down(w, l, r as int % 64)),
        op.text == "+"@ ==> (fw_parse::folded(node, macros) matches Some(w) && (w == l + r || w == l + r - modulus())),
        op.text == "-"@ ==> (fw_parse::folded(node, macros) matches Some(w) && (w == l - r || w == l - r + modulus())),
        op.text == "*"@ ==> (fw_parse::folded(node, macros) matches Some(w) && exists|q: int|
            l * r == #[trigger] (q * modulus()) + w),
        op.text == "/"@ && r != 0 ==> (fw_parse::folded(node, macros) matches Some(w) && w * r <= l < w * r + r),
        op.text == "%"@ && r != 0 ==> (fw_parse::folded(node, macros) matches Some(w) && w < r && exists|q: int|
            l == #[trigger] (q * r) + w),
        (op.text == "/"@ || op.text == "%"@) && r == 0 ==> fw_parse::folded(node, macros) is None,
        op.text != "|"@ && op.text != "&"@ && op.text != "^"@ && op.text != "<<"@ && op.text != ">>"@ && op.text
            != "+"@ && op.text != "-"@ && op.text != "*"@ && op.text != "/"@ && op.text != "%"@ ==> fw_parse::folded(
            node,
            macros,
        ) is None,
{
    lemma_kinds();
    lemma_operators();
    assert(fw_parse::folded(node, macros) == fw_parse::binary_value(op.text, l, r));
    if op.text == "|"@ {
        assert forall|i: u32| i < 64 implies (#[trigger] bits::bit(l | r, i) <==> bits::bit(l, i) || bits::bit(r, i)) by {
            bits::or_bits(l, r, i);
        }
    } else if op.text == "&"@ {
        assert forall|i: u32| i < 64 implies (#[trigger] bits::bit(l & r, i) <==> bits::bit(l, i) && bits::bit(r, i)) by {
            assert(i < 64 ==> (((l & r) >> i) & 1 == 1 <==> (l >> i) & 1 == 1 && (r >> i) & 1 == 1)) by (bit_vector);
        }
    } else if op.text == "^"@ {
        assert forall|i: u32| i < 64 implies (#[trigger] bits::bit(l ^ r, i) <==> bits::bit(l, i) != bits::bit(r, i)) by {
            assert(i < 64 ==> (((l ^ r) >> i) & 1 == 1 <==> ((l >> i) & 1 == 1) != ((r >> i) & 1 == 1))) by (bit_vector);
        }
    } else if op.text == "<<"@ || op.text == ">>"@ {
        lemma_moved(l, r);
    } else if op.text == "*"@ {
        let m = modulus();
        vstd::arithmetic::div_mod::lemma_fundamental_div_mod(l * r, m);
        vstd::arithmetic::div_mod::lemma_mod_bound(l * r, m);
        assert(0 <= l * r) by (nonlinear_arith);
        let q = (l * r) / m;
        assert(m * q == q * m) by (nonlinear_arith);
        assert(l * r == q * m + (l * r) % m);
    } else if (op.text == "/"@ || op.text == "%"@) && r != 0 {
        let q = l as int / r as int;
        vstd::arithmetic::div_mod::lemma_fundamental_div_mod(l as int, r as int);
        vstd::arithmetic::div_mod::lemma_mod_bound(l as int, r as int);
        assert(r * q == q * r) by (nonlinear_arith);
        assert(l == q * r + l % r);
    }
}

/// Parentheses change nothing; an identifier stands for its macro, and for nothing where
/// there is none; and an expression of any other kind has no value.
pub proof fn other_expressions_fold(node: SyntaxView, macros: Map<Seq<char>, u64>)
    ensures
        node.kind == "parenthesized_expression"@ ==> fw_parse::folded(node, macros) == match node.first_operand() {
            Some(inner) => fw_parse::folded(inner, macros),
            None => None,
        },
        node.kind == "identifier"@ && macros.contains_key(node.text) ==> fw_parse::folded(node, macros) == Some(
            macros[node.text],
        ),
        node.kind == "identifier"@ && !macros.contains_key(node.text) ==> fw_parse::folded(node, macros) is None,
        node.kind == "number_literal"@ ==> fw_parse::folded(node, macros) == literal::number_literal(node.text),
        node.kind != "parenthesized_expression"@ && node.kind != "identifier"@ && node.kind != "number_literal"@
            && node.kind != "unary_expression"@ && node.kind != "binary_expression"@ ==> fw_parse::folded(node, macros)
            is None,
{
    lemma_kinds();
}

// ── Literals ─────────────────────────────────────────────────────────────────

/// What a digit counts: ten letters after the ten figures, in either case.
pub open spec fn digit(c: char) -> int {
    if '0' <= c <= '9' {
        c as int - '0' as int
    } else if 'a' <= c <= 'f' {
        10 + (c as int - 'a' as int)
    } else if 'A' <= c <= 'F' {
        10 + (c as int - 'A' as int)
    } else {
        -1
    }
}

/// Whether `c` is a digit in that base.
pub open spec fn is_digit(c: char, radix: int) -> bool {
    0 <= digit(c) < radix
}

/// Whether a text is made of digits in that base.
pub open spec fn all_digits(s: Seq<char>, radix: int) -> bool {
    s.len() > 0 && forall|i: int| 0 <= i < s.len() ==> is_digit(#[trigger] s[i], radix)
}

/// What a literal in that base begins with.
pub open spec fn is_prefix(p: Seq<char>, radix: int) -> bool {
    ||| radix == 16 && (p == "0x"@ || p == "0X"@)
    ||| radix == 2 && (p == "0b"@ || p == "0B"@)
    ||| radix == 10 && p.len() == 0
}

/// Whether `c` ends a literal as a mark of its type.
pub open spec fn is_type_mark(c: char) -> bool {
    c == 'u' || c == 'U' || c == 'l' || c == 'L'
}

proof fn lemma_digit(c: char, radix: int)
    requires
        radix == 2 || radix == 10 || radix == 16,
    ensures
        is_digit(c, radix) ==> literal::digit_value(c, radix as nat) == Some(digit(c) as nat) && !is_type_mark(c) && c != '+'
            && c != 'x' && c != 'X',
        !is_digit(c, radix) ==> literal::digit_value(c, radix as nat) is None,
        radix < 16 && is_digit(c, radix) ==> c != 'b' && c != 'B',
{
}

proof fn lemma_all_digits(s: Seq<char>, radix: int)
    requires
        radix == 2 || radix == 10 || radix == 16,
    ensures
        literal::digits_value(s, radix as nat) is Some <==> forall|i: int|
            0 <= i < s.len() ==> is_digit(#[trigger] s[i], radix),
    decreases s.len(),
{
    if s.len() > 0 {
        let rest = s.drop_last();
        lemma_all_digits(rest, radix);
        lemma_digit(s.last(), radix);
        assert(s[s.len() - 1] == s.last());
        assert forall|i: int| 0 <= i < rest.len() implies rest[i] == s[i] by {}
        if forall|i: int| 0 <= i < s.len() ==> is_digit(#[trigger] s[i], radix) {
            assert forall|i: int| 0 <= i < rest.len() implies is_digit(#[trigger] rest[i], radix) by {
                assert(is_digit(s[i], radix));
            }
        }
        if literal::digits_value(s, radix as nat) is Some {
            assert forall|i: int| 0 <= i < s.len() implies is_digit(#[trigger] s[i], radix) by {
                if i < rest.len() {
                    assert(is_digit(rest[i], radix));
                }
            }
        }
    }
}

/// A literal of a prefix and digits is those digits in that base.
proof fn lemma_literal(p: Seq<char>, s: Seq<char>, radix: int)
    requires
        is_prefix(p, radix),
        radix != 10 || s.len() > 0,
        s.len() > 0 ==> !is_type_mark(s.last()),
        radix == 10 ==> s.len() < 2 || s[0] != '0' || (s[1] != 'x' && s[1] != 'X' && s[1] != 'b' && s[1] != 'B'),
    ensures
        literal::number_literal(p + s) == literal::unsigned(s, radix as nat),
{
    reveal_strlit("0x");
    reveal_strlit("0X");
    reveal_strlit("0b");
    reveal_strlit("0B");
    let t = p + s;
    assert("0x"@.len() == 2 && "0X"@.len() == 2 && "0b"@.len() == 2 && "0B"@.len() == 2);
    assert("0x"@[0] == '0' && "0x"@[1] == 'x' && "0X"@[0] == '0' && "0X"@[1] == 'X');
    assert("0b"@[0] == '0' && "0b"@[1] == 'b' && "0B"@[0] == '0' && "0B"@[1] == 'B');
    if s.len() > 0 {
        assert(t.last() == s.last());
    } else {
        assert(t =~= p);
        assert(t.last() == p[1]);
    }
    assert(literal::without_suffix(t) == t);
    if t.len() >= 2 {
        literal::lemma_prefix_of_two("0x"@, t);
        literal::lemma_prefix_of_two("0X"@, t);
        literal::lemma_prefix_of_two("0b"@, t);
        literal::lemma_prefix_of_two("0B"@, t);
    }
    if radix == 10 {
        assert(t =~= s);
    } else {
        assert(t[0] == p[0] && t[1] == p[1]);
        assert(t.skip(2) =~= s);
    }
}

proof fn lemma_digits_only(s: Seq<char>, radix: int)
    requires
        all_digits(s, radix),
        radix == 2 || radix == 10 || radix == 16,
    ensures
        s[0] != '+',
        !is_type_mark(s.last()),
        radix == 10 && s.len() > 1 ==> s[1] != 'x' && s[1] != 'X' && s[1] != 'b' && s[1] != 'B',
        literal::unsigned(s, radix as nat) == (match literal::digits_value(s, radix as nat) {
            Some(n) if n <= u64::MAX => Some(n as u64),
            _ => None,
        }),
{
    assert(is_digit(s[0], radix));
    assert(is_digit(s[s.len() - 1], radix));
    lemma_digit(s[0], radix);
    lemma_digit(s.last(), radix);
    if s.len() > 1 {
        assert(is_digit(s[1], radix));
        lemma_digit(s[1], radix);
    }
}

/// One digit is what it counts, and each further digit makes the number so many times as
/// large as the base says, and adds what it counts. A number that does not fit in
/// sixty-four bits has no value.
pub proof fn literals_are_read_digit_by_digit(p: Seq<char>, s: Seq<char>, c: char, radix: int)
    requires
        is_prefix(p, radix),
        is_digit(c, radix),
    ensures
        literal::number_literal(p + seq![c]) == Some(digit(c) as u64),
        all_digits(s, radix) ==> literal::number_literal(p + s.push(c)) == (match literal::number_literal(p + s) {
            Some(n) if n * radix + digit(c) <= u64::MAX => Some((n * radix + digit(c)) as u64),
            _ => None,
        }),
{
    let one = seq![c];
    lemma_digit(c, radix);
    assert(all_digits(one, radix));
    lemma_digits_only(one, radix);
    lemma_literal(p, one, radix);
    reveal_with_fuel(literal::digits_value, 2);
    assert(one.drop_last() =~= Seq::<char>::empty());
    assert(one.last() == c);
    assert(0 * radix == 0) by (nonlinear_arith);
    if all_digits(s, radix) {
        let more = s.push(c);
        assert forall|i: int| 0 <= i < more.len() implies is_digit(#[trigger] more[i], radix) by {
            if i < s.len() {
                assert(more[i] == s[i]);
            }
        }
        lemma_digits_only(s, radix);
        lemma_digits_only(more, radix);
        lemma_literal(p, s, radix);
        lemma_literal(p, more, radix);
        lemma_all_digits(s, radix);
        assert(more.drop_last() =~= s);
        assert(more.last() == c);
        if let Some(n) = literal::digits_value(s, radix as nat) {
            assert(literal::digits_value(more, radix as nat) == Some((n * radix + digit(c)) as nat));
            if n > u64::MAX {
                assert(n * radix >= n) by (nonlinear_arith)
                    requires
                        radix >= 2,
                        n >= 0,
                ;
            }
        }
    }
}

/// A mark of the type at the end changes nothing.
pub proof fn literals_may_have_a_type(s: Seq<char>, c: char)
    requires
        is_type_mark(c),
    ensures
        literal::number_literal(s.push(c)) == literal::number_literal(s),
{
    assert(s.push(c).drop_last() =~= s);
    assert(s.push(c).last() == c);
    assert(literal::without_suffix(s.push(c)) == literal::without_suffix(s));
}

/// What is not made of digits, after the prefix and a plus sign, has no value.
pub proof fn other_literals_have_no_value(p: Seq<char>, s: Seq<char>, radix: int, k: int)
    requires
        is_prefix(p, radix),
        s.len() > 0 ==> !is_type_mark(s.last()),
        radix == 10 ==> s.len() < 2 || s[0] != '0' || (s[1] != 'x' && s[1] != 'X' && s[1] != 'b' && s[1] != 'B'),
        s.len() == 0 || (0 <= k < s.len() && !is_digit(s[k], radix) && (k > 0 || s[0] != '+' || s.len() == 1)),
    ensures
        literal::number_literal(p + s) is None,
{
    if s.len() == 0 && radix == 10 {
        reveal_strlit("0x");
        reveal_strlit("0X");
        reveal_strlit("0b");
        reveal_strlit("0B");
        assert((p + s).len() == 0);
        assert("0x"@.len() == 2 && "0X"@.len() == 2 && "0b"@.len() == 2 && "0B"@.len() == 2);
        assert(literal::without_suffix(p + s) == p + s);
        assert(literal::number_literal(p + s) is None);
    } else {
        lemma_literal(p, s, radix);
        if s.len() > 0 {
            let rest = if s[0] == '+' {
                s.drop_first()
            } else {
                s
            };
            lemma_all_digits(rest, radix);
            if s[0] == '+' {
                if s.len() > 1 {
                    assert(rest[k - 1] == s[k]);
                    assert(!is_digit(rest[k - 1], radix));
                }
            } else {
                assert(!is_digit(rest[k], radix));
            }
        }
    }
}

} // verus!
