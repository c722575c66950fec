//! What is read out of C source: which assignments are register writes, where they go, and
//! which calls are taken.

use vstd::prelude::*;

use crate::c_source;
use crate::fw_parse;
use crate::fw_parse::{AccessTier, HalCallView, RegisterAccessView, TargetView};
use crate::fw_parse_laws;
use crate::macros;
use crate::syntax;
use crate::syntax::SyntaxView;
use crate::text;
use crate::text_laws;
use crate::write_laws;

verus! {

// ── Reading nodes ────────────────────────────────────────────────────────────

/// A field of a node is the child at the place that the first entry of that name gives.
pub proof fn fields_are_looked_up_by_name(node: SyntaxView, name: Seq<char>, k: int)
    requires
        0 <= k < node.fields.len(),
        node.fields[k].0 == name,
        forall|j: int| 0 <= j < k ==> (#[trigger] node.fields[j]).0 != name,
    ensures
        node.field(name) == (if node.fields[k].1 < node.children.len() {
            Some(node.children[node.fields[k].1 as int])
        } else {
            None
        }),
{
    lemma_field_index(node.fields, name, k);
}

proof fn lemma_field_index(fields: Seq<(Seq<char>, usize)>, name: Seq<char>, k: int)
    requires
        0 <= k < fields.len(),
        fields[k].0 == name,
        forall|j: int| 0 <= j < k ==> (#[trigger] fields[j]).0 != name,
    ensures
        syntax::field_index(fields, name) == Some(fields[k].1),
    decreases fields.len(),
{
    if k > 0 {
        assert(fields[0].0 != name);
        let rest = fields.drop_first();
        assert forall|j: int| 0 <= j < k - 1 implies (#[trigger] rest[j]).0 != name by {
            assert(rest[j] == fields[j + 1]);
        }
        lemma_field_index(rest, name, k - 1);
    }
}

/// A node has no field of a name that none of its entries has.
pub proof fn missing_fields(node: SyntaxView, name: Seq<char>)
    requires
        forall|j: int| 0 <= j < node.fields.len() ==> (#[trigger] node.fields[j]).0 != name,
    ensures
        node.field(name) is None,
{
    lemma_no_field_index(node.fields, name);
}

proof fn lemma_no_field_index(fields: Seq<(Seq<char>, usize)>, name: Seq<char>)
    requires
        forall|j: int| 0 <= j < fields.len() ==> (#[trigger] fields[j]).0 != name,
    ensures
        syntax::field_index(fields, name) is None,
    decreases fields.len(),
{
    if fields.len() > 0 {
        assert(fields[0].0 != name);
        let rest = fields.drop_first();
        assert forall|j: int| 0 <= j < rest.len() implies (#[trigger] rest[j]).0 != name by {
            assert(rest[j] == fields[j + 1]);
        }
        lemma_no_field_index(rest, name);
    }
}

/// The operands are the named nodes that are no comments, in order.
pub proof fn operands_are_named_nodes(nodes: Seq<SyntaxView>)
    ensures
        syntax::operands(nodes) == nodes.filter(|n: SyntaxView| n.named && n.kind != "comment"@),
    decreases nodes.len(),
{
    reveal(Seq::filter);
    if nodes.len() > 0 {
        operands_are_named_nodes(nodes.drop_last());
    } else {
        assert(syntax::operands(nodes) =~= nodes.filter(|n: SyntaxView| n.named && n.kind != "comment"@));
    }
}

/// The first operand is the first named child that is no comment.
pub proof fn the_first_operand_is_the_first_named_child(node: SyntaxView)
    ensures
        ({
            let named = node.children.filter(|n: SyntaxView| n.named && n.kind != "comment"@);
            node.first_operand() == (if named.len() > 0 {
                Some(named[0])
            } else {
                None
            })
        }),
{
    operands_are_named_nodes(node.children);
}

/// Lines are counted from one.
pub proof fn lines_are_counted_from_one(node: SyntaxView)
    requires
        node.row < usize::MAX,
    ensures
        node.line() == node.row + 1,
{
}

// ── Reading trees ────────────────────────────────────────────────────────────

proof fn lemma_fields_of(fields: Map<Seq<char>, int>, name: Seq<char>, n: nat)
    requires
        n <= c_source::field_names().len(),
    ensures
        ({
            let entries = c_source::fields_of(fields, n);
            &&& forall|j: int|
                0 <= j < entries.len() ==> fields.contains_key((#[trigger] entries[j]).0) && entries[j].1
                    == fields[entries[j].0] as usize
            &&& (exists|j: int| 0 <= j < entries.len() && (#[trigger] entries[j]).0 == name) <==> fields.contains_key(
                name,
            ) && exists|k: int| 0 <= k < n && #[trigger] c_source::field_names()[k] == name
        }),
    decreases n,
{
    let entries = c_source::fields_of(fields, n);
    if n > 0 {
        lemma_fields_of(fields, name, (n - 1) as nat);
        let before = c_source::fields_of(fields, (n - 1) as nat);
        let last = c_source::field_names()[n - 1];
        assert forall|j: int| 0 <= j < entries.len() implies fields.contains_key((#[trigger] entries[j]).0) && entries[j].1
            == fields[entries[j].0] as usize by {
            if j < before.len() {
                assert(entries[j] == before[j]);
            }
        }
        if exists|j: int| 0 <= j < before.len() && (#[trigger] before[j]).0 == name {
            let j = choose|j: int| 0 <= j < before.len() && (#[trigger] before[j]).0 == name;
            assert(entries[j] == before[j]);
        }
        if exists|j: int| 0 <= j < entries.len() && (#[trigger] entries[j]).0 == name {
            let j = choose|j: int| 0 <= j < entries.len() && (#[trigger] entries[j]).0 == name;
            if j < before.len() {
                assert(before[j].0 == name);
                let k = choose|k: int| 0 <= k < n - 1 && #[trigger] c_source::field_names()[k] == name;
                assert(c_source::field_names()[k] == name);
            } else {
                assert(c_source::field_names()[n - 1] == name);
            }
        }
        if fields.contains_key(name) && exists|k: int| 0 <= k < n && #[trigger] c_source::field_names()[k] == name {
            let k = choose|k: int| 0 <= k < n && #[trigger] c_source::field_names()[k] == name;
            if k == n - 1 {
                assert(entries[before.len() as int].0 == name);
            } else {
                assert(c_source::field_names()[k] == name);
                let j = choose|j: int| 0 <= j < before.len() && (#[trigger] before[j]).0 == name;
                assert(entries[j] == before[j]);
            }
        }
    }
}

proof fn lemma_first_entry(entries: Seq<(Seq<char>, usize)>, name: Seq<char>)
    ensures
        match syntax::field_index(entries, name) {
            Some(i) => exists|j: int| 0 <= j < entries.len() && #[trigger] entries[j] == (name, i),
            None => forall|j: int| 0 <= j < entries.len() ==> (#[trigger] entries[j]).0 != name,
        },
    decreases entries.len(),
{
    if entries.len() > 0 {
        if entries[0].0 == name {
            assert(entries[0] == (name, entries[0].1));
        } else {
            let rest = entries.drop_first();
            lemma_first_entry(rest, name);
            match syntax::field_index(rest, name) {
                Some(i) => {
                    let j = choose|j: int| 0 <= j < rest.len() && #[trigger] rest[j] == (name, i);
                    assert(entries[j + 1] == (name, i));
                },
                None => {
                    assert forall|j: int| 0 <= j < entries.len() implies (#[trigger] entries[j]).0 != name by {
                        if j > 0 {
                            assert(rest[j - 1] == entries[j]);
                        }
                    }
                },
            }
        }
    }
}

/// A parsed node is read as it is: its kind, its row and whether it is named, its children
/// one by one, the text of its bytes, and, of the fields that are read, those that it has.
pub proof fn nodes_are_read_as_they_are(node: c_source::NodeContents, source: Seq<char>, i: int, name: Seq<char>)
    requires
        0 <= i < node.children.len() <= usize::MAX,
        exists|k: int| 0 <= k < 9 && #[trigger] c_source::field_names()[k] == name,
    ensures
        ({
            let s = c_source::syntax_of(node, source);
            let bytes = vstd::utf8::encode_utf8(source);
            &&& s.kind == node.kind && s.named == node.named && s.row == node.row
            &&& s.children.len() == node.children.len()
            &&& s.children[i] == c_source::syntax_of(node.children[i], source)
            &&& node.fields.contains_key(name) && node.fields[name] == i ==> s.field(name) == Some(s.children[i])
            &&& !node.fields.contains_key(name) ==> s.field(name) is None
            &&& node.start <= node.end <= bytes.len() && vstd::utf8::valid_utf8(
                bytes.subrange(node.start as int, node.end as int),
            ) ==> vstd::utf8::encode_utf8(s.text) == bytes.subrange(node.start as int, node.end as int)
        }),
{
    let s = c_source::syntax_of(node, source);
    let bytes = vstd::utf8::encode_utf8(source);
    lemma_fields_of(node.fields, name, 9);
    lemma_first_entry(s.fields, name);
    if node.start <= node.end <= bytes.len() && vstd::utf8::valid_utf8(
        bytes.subrange(node.start as int, node.end as int),
    ) {
        vstd::utf8::decode_utf8_encode_utf8(bytes.subrange(node.start as int, node.end as int));
    }
}

/// The fields that are read are those that the checks need.
pub proof fn needed_fields_are_read()
    ensures
        c_source::field_names().contains("operator"@),
        c_source::field_names().contains("left"@),
        c_source::field_names().contains("right"@),
        c_source::field_names().contains("argument"@),
        c_source::field_names().contains("arguments"@),
        c_source::field_names().contains("function"@),
        c_source::field_names().contains("field"@),
        c_source::field_names().contains("name"@),
        c_source::field_names().contains("value"@),
{
    assert(c_source::field_names()[0] == "argument"@);
    assert(c_source::field_names()[1] == "arguments"@);
    assert(c_source::field_names()[2] == "field"@);
    assert(c_source::field_names()[3] == "function"@);
    assert(c_source::field_names()[4] == "left"@);
    assert(c_source::field_names()[5] == "name"@);
    assert(c_source::field_names()[6] == "operator"@);
    assert(c_source::field_names()[7] == "right"@);
    assert(c_source::field_names()[8] == "value"@);
}

// ── Targets ──────────────────────────────────────────────────────────────────

/// A member of `<name>_hw` is the register of that name, in the peripheral of that name,
/// both in upper case; a member of anything else is not resolved.
pub proof fn members_of_hw_are_registers(
    left: SyntaxView,
    macros: Map<Seq<char>, u64>,
    op: SyntaxView,
    var: SyntaxView,
    member: SyntaxView,
    name: Seq<char>,
)
    requires
        left.kind == "field_expression"@,
        left.field("operator"@) == Some(op),
        op.text == "->"@,
        left.field("argument"@) == Some(var),
        left.field("field"@) == Some(member),
    ensures
        var.text == name + "_hw"@ ==> fw_parse::lhs_target(left, macros) == Some(
            (
                AccessTier::StructField,
                TargetView::StructField {
                    peripheral: text::upper_case(name),
                    register: text::upper_case(member.text),
                },
            ),
        ),
        (forall|n: Seq<char>| var.text != #[trigger] (n + "_hw"@)) ==> fw_parse::lhs_target(left, macros) == Some(
            (AccessTier::StructField, TargetView::Unresolved),
        ),
{
    lemma_kinds();
    text_laws::cutting_gives_back_the_rest(var.text, "_hw"@, name);
    if let Some(rest) = text::strip_suffix(var.text, "_hw"@) {
        text_laws::cutting_gives_back_the_rest(var.text, "_hw"@, rest);
        assert(var.text == rest + "_hw"@);
    }
}

proof fn lemma_kinds()
    ensures
        "pointer_expression"@.len() == 18 && "field_expression"@.len() == 16 && "cast_expression"@.len() == 15,
        "parenthesized_expression"@.len() == 24 && "binary_expression"@.len() == 17 && "identifier"@.len() == 10,
        "->"@.len() == 2 && "*"@.len() == 1 && "+"@ != "-"@,
{
    reveal_strlit("pointer_expression");
    reveal_strlit("field_expression");
    reveal_strlit("cast_expression");
    reveal_strlit("parenthesized_expression");
    reveal_strlit("binary_expression");
    reveal_strlit("identifier");
    reveal_strlit("->");
    reveal_strlit("*");
    reveal_strlit("+");
    reveal_strlit("-");
    assert("+"@[0] == '+' && "-"@[0] == '-');
}

/// Casts and parentheses around an expression are passed over, and nothing else is.
pub proof fn casts_and_parentheses_are_passed_over(node: SyntaxView)
    ensures
        node.kind == "cast_expression"@ && node.field("value"@) is Some ==> fw_parse::unwrapped(node)
            == fw_parse::unwrapped(node.field("value"@)->0),
        node.kind == "parenthesized_expression"@ && node.first_operand() is Some ==> fw_parse::unwrapped(node)
            == fw_parse::unwrapped(node.first_operand()->0),
        node.kind != "cast_expression"@ && node.kind != "parenthesized_expression"@ ==> fw_parse::unwrapped(node)
            == node,
{
    lemma_kinds();
}

/// A write through a pointer goes to the address that its expression folds to.
pub proof fn pointers_go_to_their_addresses(
    left: SyntaxView,
    macros: Map<Seq<char>, u64>,
    op: SyntaxView,
    argument: SyntaxView,
    address: u64,
)
    requires
        left.kind == "pointer_expression"@,
        left.field("operator"@) == Some(op),
        op.text == "*"@,
        left.field("argument"@) == Some(argument),
        fw_parse::folded(fw_parse::unwrapped(argument), macros) == Some(address),
    ensures
        fw_parse::lhs_target(left, macros) == Some((AccessTier::RawPointer, TargetView::Address(address))),
{
    lemma_kinds();
}

/// The register behind an offset macro of a peripheral: `<P>_<R>_OFFSET` is `R`, where the
/// peripheral's name may be left out, and anything else is none.
pub proof fn offsets_name_registers(macro_name: Seq<char>, peripheral: Seq<char>, register: Seq<char>)
    ensures
        macro_name == peripheral + "_"@ + register + "_OFFSET"@ ==> fw_parse::offset_register(macro_name, peripheral)
            == Some(register),
        macro_name == register + "_OFFSET"@ && (forall|r: Seq<char>| register != #[trigger] (peripheral + "_"@ + r))
            ==> fw_parse::offset_register(macro_name, peripheral) == Some(register),
        (forall|r: Seq<char>| macro_name != #[trigger] (r + "_OFFSET"@)) ==> fw_parse::offset_register(
            macro_name,
            peripheral,
        ) is None,
{
    let suffix = "_OFFSET"@;
    let prefix = peripheral + "_"@;
    if macro_name == peripheral + "_"@ + register + suffix {
        text_laws::cutting_gives_back_the_rest(macro_name, suffix, prefix + register);
        text_laws::cutting_gives_back_the_rest(prefix + register, prefix, register);
    }
    if macro_name == register + suffix && (forall|r: Seq<char>| register != #[trigger] (peripheral + "_"@ + r)) {
        text_laws::cutting_gives_back_the_rest(macro_name, suffix, register);
        if let Some(rest) = text::strip_prefix(register, prefix) {
            text_laws::cutting_gives_back_the_rest(register, prefix, rest);
            assert(register == peripheral + "_"@ + rest);
        }
    }
    if let Some(rest) = text::strip_suffix(macro_name, suffix) {
        text_laws::cutting_gives_back_the_rest(macro_name, suffix, rest);
        assert(macro_name == rest + suffix);
    }
}

/// An address that is the sum of two macros without a value goes to the peripheral of the
/// base macro, in whichever place it stands, and to the register of the other one.
pub proof fn base_and_offset_name_the_register(
    left: SyntaxView,
    macros: Map<Seq<char>, u64>,
    star: SyntaxView,
    argument: SyntaxView,
    op: SyntaxView,
    l: SyntaxView,
    r: SyntaxView,
    peripheral: Seq<char>,
)
    requires
        left.kind == "pointer_expression"@,
        left.field("operator"@) == Some(star),
        star.text == "*"@,
        left.field("argument"@) == Some(argument),
        fw_parse::folded(fw_parse::unwrapped(argument), macros) is None,
        fw_parse::unwrapped(argument).kind == "binary_expression"@,
        fw_parse::unwrapped(argument).field("operator"@) == Some(op),
        op.text == "+"@ || op.text == "-"@,
        fw_parse::unwrapped(argument).field("left"@) == Some(l),
        fw_parse::unwrapped(argument).field("right"@) == Some(r),
        l.kind == "identifier"@,
        r.kind == "identifier"@,
    ensures
        l.text == peripheral + "_BASE"@ ==> fw_parse::lhs_target(left, macros) == Some(
            (
                AccessTier::RegsConstant,
                TargetView::RegsMacro { peripheral, register: fw_parse::offset_register(r.text, peripheral) },
            ),
        ),
        (forall|n: Seq<char>| l.text != #[trigger] (n + "_BASE"@)) && r.text == peripheral + "_BASE"@
            ==> fw_parse::lhs_target(left, macros) == Some(
            (
                AccessTier::RegsConstant,
                TargetView::RegsMacro { peripheral, register: fw_parse::offset_register(l.text, peripheral) },
            ),
        ),
        (forall|n: Seq<char>| l.text != #[trigger] (n + "_BASE"@)) && (forall|n: Seq<char>|
            r.text != #[trigger] (n + "_BASE"@)) ==> fw_parse::lhs_target(left, macros) == Some(
            (AccessTier::RegsConstant, TargetView::Unresolved),
        ),
{
    lemma_kinds();
    let base = "_BASE"@;
    text_laws::cutting_gives_back_the_rest(l.text, base, peripheral);
    text_laws::cutting_gives_back_the_rest(r.text, base, peripheral);
    if let Some(rest) = text::strip_suffix(l.text, base) {
        text_laws::cutting_gives_back_the_rest(l.text, base, rest);
        assert(l.text == rest + base);
    }
    if let Some(rest) = text::strip_suffix(r.text, base) {
        text_laws::cutting_gives_back_the_rest(r.text, base, rest);
        assert(r.text == rest + base);
    }
}

/// A base macro alone gives the peripheral and no register; any other address without a
/// value is not resolved.
pub proof fn other_addresses(
    left: SyntaxView,
    macros: Map<Seq<char>, u64>,
    star: SyntaxView,
    argument: SyntaxView,
    peripheral: Seq<char>,
)
    requires
        left.kind == "pointer_expression"@,
        left.field("operator"@) == Some(star),
        star.text == "*"@,
        left.field("argument"@) == Some(argument),
        fw_parse::folded(fw_parse::unwrapped(argument), macros) is None,
    ensures
        ({
            let e = fw_parse::unwrapped(argument);
            &&& e.kind == "identifier"@ && e.text == peripheral + "_BASE"@ ==> fw_parse::lhs_target(left, macros)
                == Some((AccessTier::RegsConstant, TargetView::RegsMacro { peripheral, register: None }))
            &&& e.kind == "identifier"@ && (forall|n: Seq<char>| e.text != #[trigger] (n + "_BASE"@))
                ==> fw_parse::lhs_target(left, macros) == Some((AccessTier::RawPointer, TargetView::Unresolved))
            &&& e.kind != "identifier"@ && e.kind != "binary_expression"@ ==> fw_parse::lhs_target(left, macros)
                == Some((AccessTier::RawPointer, TargetView::Unresolved))
        }),
{
    lemma_kinds();
    let e = fw_parse::unwrapped(argument);
    text_laws::cutting_gives_back_the_rest(e.text, "_BASE"@, peripheral);
    if let Some(rest) = text::strip_suffix(e.text, "_BASE"@) {
        text_laws::cutting_gives_back_the_rest(e.text, "_BASE"@, rest);
        assert(e.text == rest + "_BASE"@);
    }
}

/// What is neither a pointer that is followed nor a member behind an arrow is no register
/// write.
pub proof fn other_assignments_are_no_writes(left: SyntaxView, macros: Map<Seq<char>, u64>)
    ensures
        left.kind != "pointer_expression"@ && left.kind != "field_expression"@ ==> fw_parse::lhs_target(left, macros)
            is None,
        left.field("operator"@) matches Some(op) && op.text != "*"@ && op.text != "->"@ ==> fw_parse::lhs_target(
            left,
            macros,
        ) is None,
{
}

// ── Writes and calls ─────────────────────────────────────────────────────────

/// A register write has the operator, the target, the value and the texts of its
/// assignment, and its line.
pub proof fn writes_are_read_from_assignments(
    node: SyntaxView,
    file: Seq<char>,
    macros: Map<Seq<char>, u64>,
    op: SyntaxView,
    left: SyntaxView,
    right: SyntaxView,
    a: RegisterAccessView,
)
    requires
        node.field("operator"@) == Some(op),
        node.field("left"@) == Some(left),
        node.field("right"@) == Some(right),
    ensures
        fw_parse::assignment_access(node, file, macros) == Some(a) <==> {
            &&& op.text == write_laws::written(a.op)
            &&& fw_parse::lhs_target(left, macros) == Some((a.tier, a.target))
            &&& a.value == fw_parse::folded(right, macros)
            &&& a.raw_lhs == left.text
            &&& a.raw_rhs == right.text
            &&& a.file == file
            &&& a.line == node.line()
        },
{
    write_laws::operators_are_read_as_written(a.op, op.text);
    if let Some(o) = fw_parse::assign_op(op.text) {
        write_laws::operators_are_read_as_written(o, op.text);
    }
}

/// Which functions are taken: those of pins, of the instances and of the channels.
pub open spec fn modelled(name: Seq<char>) -> bool {
    exists|i: int| 0 <= i < 11 && #[trigger] modelled_names()[i] == name
}

pub open spec fn modelled_names() -> Seq<Seq<char>> {
    seq![
        "gpio_"@ + "init"@,
        "gpio_"@ + "put"@,
        "gpio_"@ + "set_dir"@,
        "gpio_"@ + "set_function"@,
        "uart"@ + "_init"@,
        "spi"@ + "_init"@,
        "i2c"@ + "_init"@,
        "pwm_"@ + "set_wrap"@,
        "pwm_"@ + "set_chan_level"@,
        "dma_"@ + "channel_configure"@,
        "adc_"@ + "select_input"@,
    ]
}

proof fn lemma_modelled_names()
    ensures
        modelled_names()[0] == "gpio_init"@,
        modelled_names()[1] == "gpio_put"@,
        modelled_names()[2] == "gpio_set_dir"@,
        modelled_names()[3] == "gpio_set_function"@,
        modelled_names()[4] == "uart_init"@,
        modelled_names()[5] == "spi_init"@,
        modelled_names()[6] == "i2c_init"@,
        modelled_names()[7] == "pwm_set_wrap"@,
        modelled_names()[8] == "pwm_set_chan_level"@,
        modelled_names()[9] == "dma_channel_configure"@,
        modelled_names()[10] == "adc_select_input"@,
{
    reveal_strlit("gpio_");
    reveal_strlit("init");
    reveal_strlit("put");
    reveal_strlit("set_dir");
    reveal_strlit("set_function");
    reveal_strlit("uart");
    reveal_strlit("spi");
    reveal_strlit("i2c");
    reveal_strlit("_init");
    reveal_strlit("pwm_");
    reveal_strlit("set_wrap");
    reveal_strlit("set_chan_level");
    reveal_strlit("dma_");
    reveal_strlit("channel_configure");
    reveal_strlit("adc_");
    reveal_strlit("select_input");
    reveal_strlit("gpio_init");
    reveal_strlit("gpio_put");
    reveal_strlit("gpio_set_dir");
    reveal_strlit("gpio_set_function");
    reveal_strlit("uart_init");
    reveal_strlit("spi_init");
    reveal_strlit("i2c_init");
    reveal_strlit("pwm_set_wrap");
    reveal_strlit("pwm_set_chan_level");
    reveal_strlit("dma_channel_configure");
    reveal_strlit("adc_select_input");
    assert("gpio_"@ + "init"@ =~= "gpio_init"@);
    assert("gpio_"@ + "put"@ =~= "gpio_put"@);
    assert("gpio_"@ + "set_dir"@ =~= "gpio_set_dir"@);
    assert("gpio_"@ + "set_function"@ =~= "gpio_set_function"@);
    assert("uart"@ + "_init"@ =~= "uart_init"@);
    assert("spi"@ + "_init"@ =~= "spi_init"@);
    assert("i2c"@ + "_init"@ =~= "i2c_init"@);
    assert("pwm_"@ + "set_wrap"@ =~= "pwm_set_wrap"@);
    assert("pwm_"@ + "set_chan_level"@ =~= "pwm_set_chan_level"@);
    assert("dma_"@ + "channel_configure"@ =~= "dma_channel_configure"@);
    assert("adc_"@ + "select_input"@ =~= "adc_select_input"@);
}

proof fn lemma_modelled(name: Seq<char>)
    ensures
        fw_parse::is_hal_function(name) <==> modelled(name),
{
    lemma_modelled_names();
    if modelled(name) {
        let i = choose|i: int| 0 <= i < 11 && #[trigger] modelled_names()[i] == name;
        assert(i == 0 || i == 1 || i == 2 || i == 3 || i == 4 || i == 5 || i == 6 || i == 7 || i == 8 || i == 9 || i == 10);
    }
}

/// A call is taken exactly if it calls one of the modelled functions by its name. It has
/// the constants and the texts of its arguments, comments left out, in order.
pub proof fn calls_are_read_from_expressions(
    node: SyntaxView,
    file: Seq<char>,
    macros: Map<Seq<char>, u64>,
    function: SyntaxView,
    arguments: SyntaxView,
)
    requires
        node.field("function"@) == Some(function),
        node.field("arguments"@) == Some(arguments),
    ensures
        fw_parse::hal_call_at(node, file, macros) is Some <==> function.kind == "identifier"@ && modelled(function.text),
        fw_parse::hal_call_at(node, file, macros) matches Some(c) ==> {
            let args = arguments.children.filter(|n: SyntaxView| n.named && n.kind != "comment"@);
            &&& c.function == function.text
            &&& c.file == file
            &&& c.line == node.line()
            &&& c.args.len() == args.len()
            &&& c.raw_args.len() == args.len()
            &&& forall|i: int| 0 <= i < args.len() ==> #[trigger] c.args[i] == fw_parse::folded(args[i], macros)
            &&& forall|i: int| 0 <= i < args.len() ==> #[trigger] c.raw_args[i] == args[i].text
        },
{
    lemma_modelled(function.text);
    operands_are_named_nodes(arguments.children);
}

// ── Trees ────────────────────────────────────────────────────────────────────

/// A tree gives the writes of its assignments and the calls of its call expressions,
/// wherever they stand, all of them and no others. A macro stands for what the tree gives
/// it, and else for what the project gives it.
pub proof fn trees_give_their_writes_and_calls(
    root: SyntaxView,
    file: Seq<char>,
    project: Map<Seq<char>, u64>,
    a: RegisterAccessView,
    c: HalCallView,
)
    ensures
        ({
            let macros = macros::in_effect(macros::macro_table(macros::definitions_in(root)), project);
            &&& fw_parse::tree_accesses(root, file, project).contains(a) <==> exists|d: SyntaxView| #[trigger]
                fw_parse_laws::within(root, d) && d.kind == "assignment_expression"@ && fw_parse::assignment_access(
                    d,
                    file,
                    macros,
                ) == Some(a)
            &&& fw_parse::tree_hal_calls(root, file, project).contains(c) <==> exists|d: SyntaxView| #[trigger]
                fw_parse_laws::within(root, d) && d.kind == "call_expression"@ && fw_parse::hal_call_at(d, file, macros)
                    == Some(c)
        }),
{
    let macros = macros::in_effect(macros::macro_table(macros::definitions_in(root)), project);
    fw_parse_laws::extraction_is_exact(root, file, macros, a);
    fw_parse_laws::call_extraction_is_exact(root, file, macros, c);
}

/// A text that can be parsed gives what its tree gives, and another one nothing.
pub proof fn sources_give_what_their_trees_give(source: Seq<char>, file: Seq<char>, project: Map<Seq<char>, u64>)
    ensures
        c_source::c_syntax(source) matches Some(root) ==> fw_parse::source_accesses(source, file, project)
            == fw_parse::tree_accesses(root, file, project) && fw_parse::source_hal_calls(source, file, project)
            == fw_parse::tree_hal_calls(root, file, project),
        c_source::c_syntax(source) is None ==> fw_parse::source_accesses(source, file, project).len() == 0
            && fw_parse::source_hal_calls(source, file, project).len() == 0,
{
}

/// An assignment gives its own write, if it is one, and then those inside it; a call
/// expression likewise. No write or call is given twice.
pub proof fn own_writes_and_calls_come_first(node: SyntaxView, file: Seq<char>, macros: Map<Seq<char>, u64>)
    ensures
        ({
            let inner = SyntaxView { kind: "expression_statement"@, ..node };
            let writes = fw_parse::accesses_in(inner, file, macros);
            let calls = fw_parse::hal_calls_in(inner, file, macros);
            &&& node.kind == "assignment_expression"@ ==> fw_parse::accesses_in(node, file, macros) == (
            match fw_parse::assignment_access(node, file, macros) {
                Some(a) => seq![a] + writes,
                None => writes,
            })
            &&& node.kind != "assignment_expression"@ ==> fw_parse::accesses_in(node, file, macros) == writes
            &&& node.kind == "call_expression"@ ==> fw_parse::hal_calls_in(node, file, macros) == (
            match fw_parse::hal_call_at(node, file, macros) {
                Some(c) => seq![c] + calls,
                None => calls,
            })
            &&& node.kind != "call_expression"@ ==> fw_parse::hal_calls_in(node, file, macros) == calls
        }),
{
    reveal_strlit("expression_statement");
    reveal_strlit("assignment_expression");
    reveal_strlit("call_expression");
    assert("expression_statement"@.len() == 20 && "assignment_expression"@.len() == 21 && "call_expression"@.len() == 15);
    let inner = SyntaxView { kind: "expression_statement"@, ..node };
    lemma_same_before(node, inner, file, macros, node.children.len());
    let writes = fw_parse::accesses_before(node, file, macros, node.children.len());
    let calls = fw_parse::hal_calls_before(node, file, macros, node.children.len());
    assert(Seq::<RegisterAccessView>::empty() + writes =~= writes);
    assert(Seq::<HalCallView>::empty() + calls =~= calls);
}

/// The writes and calls of a node come in the order of its children, its own before them.
pub proof fn writes_and_calls_follow_the_source(
    node: SyntaxView,
    file: Seq<char>,
    macros: Map<Seq<char>, u64>,
    n: nat,
)
    requires
        node.kind != "assignment_expression"@,
        node.kind != "call_expression"@,
        n < node.children.len(),
    ensures
        ({
            let before = SyntaxView { children: node.children.take(n as int), ..node };
            let after = SyntaxView { children: node.children.take(n as int + 1), ..node };
            let child = node.children[n as int];
            &&& fw_parse::accesses_in(after, file, macros) == fw_parse::accesses_in(before, file, macros)
                + fw_parse::accesses_in(child, file, macros)
            &&& fw_parse::hal_calls_in(after, file, macros) == fw_parse::hal_calls_in(before, file, macros)
                + fw_parse::hal_calls_in(child, file, macros)
        }),
{
    let a = SyntaxView { children: node.children.take(n as int), ..node };
    let b = SyntaxView { children: node.children.take(n as int + 1), ..node };
    lemma_same_before(a, b, file, macros, n);
    assert(b.children[n as int] == node.children[n as int]);
    let child = node.children[n as int];
    assert(fw_parse::accesses_in(b, file, macros) =~= fw_parse::accesses_in(a, file, macros) + fw_parse::accesses_in(
        child,
        file,
        macros,
    ));
    assert(fw_parse::hal_calls_in(b, file, macros) =~= fw_parse::hal_calls_in(a, file, macros) + fw_parse::hal_calls_in(
        child,
        file,
        macros,
    ));
}

proof fn lemma_same_before(a: SyntaxView, b: SyntaxView, file: Seq<char>, macros: Map<Seq<char>, u64>, n: nat)
    requires
        n <= a.children.len(),
        n <= b.children.len(),
        forall|i: int| 0 <= i < n ==> a.children[i] == b.children[i],
    ensures
        fw_parse::accesses_before(a, file, macros, n) == fw_parse::accesses_before(b, file, macros, n),
        fw_parse::hal_calls_before(a, file, macros, n) == fw_parse::hal_calls_before(b, file, macros, n),
    decreases n,
{
    if n > 0 {
        lemma_same_before(a, b, file, macros, (n - 1) as nat);
    }
}

} // verus!
