//! Reading C source.

use silicon::c_source::parse_c;
use silicon::fw_parse::{
    build_project_macro_table, extract_accesses, extract_accesses_with_macros, extract_hal_calls,
    extract_hal_calls_with_macros, fold_const, peripheral_from_base_macro, peripheral_from_hw_var,
    register_from_offset_macro, resolve_base_offset_macros, AccessTier, AssignOp, RegisterAccess, SourceFile, Target,
};
use silicon::literal::parse_number_literal;
use silicon::macros::{
    build_macro_table, merge_definitions, settled_definitions, Definition, FileMacros, MacroScope, MacroTable,
};
use silicon::syntax::SyntaxNode;

fn extract(src: &str) -> Vec<RegisterAccess> {
    extract_accesses(src, "test.c")
}

#[test]
fn raw_pointer_with_regs_macros_resolves_peripheral_and_register() {
    let accesses = extract(
        "void f(void) { *(volatile uint32_t *)(PLL_SYS_BASE + PLL_SYS_FBDIV_INT_OFFSET) = 100; }",
    );
    assert_eq!(accesses.len(), 1);
    let a = &accesses[0];
    assert_eq!(a.tier, AccessTier::RegsConstant);
    assert_eq!(
        a.target,
        Target::RegsMacro { peripheral: "PLL_SYS".to_string(), register: Some("FBDIV_INT".to_string()) }
    );
    assert_eq!(a.value, Some(100));
    assert_eq!(a.op, AssignOp::Assign);
    assert_eq!(a.line, 1);
}

#[test]
fn raw_pointer_with_literal_address_folds_to_address() {
    let accesses = extract("void f(void) { *(volatile uint32_t *)(0x40028000 + 0x08) = 0x64; }");
    assert_eq!(accesses.len(), 1);
    assert_eq!(accesses[0].tier, AccessTier::RawPointer);
    assert_eq!(accesses[0].target, Target::Address(0x40028008));
    assert_eq!(accesses[0].value, Some(0x64));
}

#[test]
fn struct_field_access_resolves_peripheral_and_register() {
    let accesses = extract("void f(void) { pll_sys_hw->fbdiv_int = 100; }");
    assert_eq!(accesses.len(), 1);
    let a = &accesses[0];
    assert_eq!(a.tier, AccessTier::StructField);
    assert_eq!(
        a.target,
        Target::StructField { peripheral: "PLL_SYS".to_string(), register: "FBDIV_INT".to_string() }
    );
    assert_eq!(a.value, Some(100));
}

#[test]
fn compound_assignment_op_is_captured() {
    let accesses = extract("void f(void) { pll_sys_hw->cs |= PLL_SYS_CS_BYPASS_BITS; }");
    assert_eq!(accesses.len(), 1);
    assert_eq!(accesses[0].op, AssignOp::OrAssign);
    // The right-hand side is a macro that nothing defines: it must not be guessed.
    assert_eq!(accesses[0].value, None);
    assert_eq!(accesses[0].raw_rhs, "PLL_SYS_CS_BYPASS_BITS");
}

#[test]
fn pointer_deref_of_plain_variable_is_unresolved_not_dropped() {
    let accesses = extract("void f(volatile uint32_t *reg) { *reg = 5; }");
    assert_eq!(accesses.len(), 1);
    assert_eq!(accesses[0].tier, AccessTier::RawPointer);
    assert_eq!(accesses[0].target, Target::Unresolved);
}

#[test]
fn struct_access_on_non_hw_variable_is_unresolved() {
    let accesses = extract("void f(void) { my_state->counter = 5; }");
    assert_eq!(accesses.len(), 1);
    assert_eq!(accesses[0].target, Target::Unresolved);
}

#[test]
fn plain_local_variable_assignment_is_not_a_register_access() {
    let accesses = extract("void f(void) { int x = 5; x = 6; }");
    assert!(accesses.is_empty());
}

#[test]
fn dot_field_access_is_not_treated_as_struct_tier() {
    // `.` is a member of a value, no access through a pointer to a hardware struct.
    let accesses = extract("void f(void) { thing.member = 5; }");
    assert!(accesses.is_empty());
}

#[test]
fn shifted_mask_value_is_folded() {
    let accesses = extract("void f(void) { pll_sys_hw->cs = (1u << 8) | (1u << 5); }");
    assert_eq!(accesses[0].value, Some((1u64 << 8) | (1u64 << 5)));
}

#[test]
fn macro_defined_value_is_folded() {
    let src = "#define MY_FUNCSEL 5u\nvoid f(void) { pll_sys_hw->funcsel = MY_FUNCSEL; }";
    let accesses = extract(src);
    assert_eq!(accesses[0].value, Some(5));
}

#[test]
fn macro_defined_address_folds_to_target_address() {
    let src = "#define MY_BASE 0x40028000u\n#define MY_OFF 0x08u\n\
               void f(void) { *(volatile uint32_t *)(MY_BASE + MY_OFF) = 1u; }";
    let accesses = extract(src);
    assert_eq!(accesses[0].target, Target::Address(0x40028008));
    assert_eq!(accesses[0].value, Some(1));
}

#[test]
fn macro_composed_with_literal_folds_correctly() {
    let src = "#define SHIFT 5u\nvoid f(void) { pll_sys_hw->cs = (1u << SHIFT); }";
    let accesses = extract(src);
    assert_eq!(accesses[0].value, Some(1u64 << 5));
}

#[test]
fn undefined_macro_identifier_stays_unresolved() {
    // Nothing defines it: the value must stay unknown, not guessed.
    let accesses = extract("void f(void) { pll_sys_hw->cs |= SOME_UNKNOWN_BITS; }");
    assert_eq!(accesses[0].value, None);
}

/// Ten accesses of all shapes, two of them through runtime variables.
const SAMPLE: &str = "#include <stdint.h>
#define PLL_SYS_BASE 0x40028000u
#define PLL_SYS_FBDIV_INT_OFFSET 0x08u

void init(volatile uint32_t *reg, struct state *state) {
    *(volatile uint32_t *)(PLL_SYS_BASE + PLL_SYS_FBDIV_INT_OFFSET) = 100;
    *(volatile uint32_t *)(0x40028000) = 0x20;
    pll_sys_hw->fbdiv_int = 125;
    pll_sys_hw->prim = (6u << 16) | (2u << 12);
    io_bank0_hw->gpio25_ctrl = 5;
    sio_hw->gpio_oe |= 1u << 25;
    sio_hw->gpio_out ^= 1u << 25;
    *(volatile uint32_t *)(IO_BANK0_BASE + IO_BANK0_GPIO0_CTRL_OFFSET) = 5;
    *reg = 1;
    state->mode = 2;
    int local = 0;
    local = 3;
}
";

#[test]
fn lists_every_access_and_marks_unresolved_ones() {
    let accesses = extract_accesses(SAMPLE, "sample_pll_gpio.c");
    assert_eq!(accesses.len(), 10, "expected exactly 10 recognized accesses in the sample file");

    let unresolved: Vec<_> = accesses.iter().filter(|a| a.target == Target::Unresolved).collect();
    assert_eq!(unresolved.len(), 2, "the two runtime-variable accesses must be marked unresolved");
    for u in &unresolved {
        assert!(u.tier == AccessTier::RawPointer || u.tier == AccessTier::StructField);
    }

    let resolved_count = accesses.len() - unresolved.len();
    assert_eq!(resolved_count, 8, "the other 8 accesses must resolve a peripheral/register name or address");

    assert!(
        accesses.iter().any(|a| a.target == Target::Address(0x40028008)),
        "PLL_SYS_BASE+PLL_SYS_FBDIV_INT_OFFSET must fold to Address(0x40028008)"
    );
    assert!(accesses.iter().any(|a| a.target
        == Target::StructField { peripheral: "PLL_SYS".into(), register: "FBDIV_INT".into() }));
    assert!(accesses.iter().any(|a| a.target == Target::Address(0x40028000)));
}

#[test]
fn accesses_come_in_order_with_their_lines_and_texts() {
    let accesses = extract_accesses(SAMPLE, "sample_pll_gpio.c");
    let lines: Vec<usize> = accesses.iter().map(|a| a.line).collect();
    assert_eq!(lines, vec![6, 7, 8, 9, 10, 11, 12, 13, 14, 15]);
    assert!(accesses.iter().all(|a| a.file == "sample_pll_gpio.c"));
    assert_eq!(accesses[2].raw_lhs, "pll_sys_hw->fbdiv_int");
    assert_eq!(accesses[2].raw_rhs, "125");
    assert_eq!(accesses[6].op, AssignOp::XorAssign);
    assert_eq!(accesses[3].value, Some(0x62000));
}

#[test]
fn nested_assignments_come_outer_first() {
    let accesses = extract("void f(void) { a_hw->x = b_hw->y = 3; }");
    assert_eq!(accesses.len(), 2);
    assert_eq!(accesses[0].raw_lhs, "a_hw->x");
    // An assignment is no constant expression.
    assert_eq!(accesses[0].value, None);
    assert_eq!(accesses[1].raw_lhs, "b_hw->y");
    assert_eq!(accesses[1].value, Some(3));
}

#[test]
fn number_literals_have_their_c_value() {
    assert_eq!(parse_number_literal("0"), Some(0));
    assert_eq!(parse_number_literal("42"), Some(42));
    assert_eq!(parse_number_literal("42uL"), Some(42));
    assert_eq!(parse_number_literal("0xFfu"), Some(255));
    assert_eq!(parse_number_literal("0X10"), Some(16));
    assert_eq!(parse_number_literal("0b101"), Some(5));
    assert_eq!(parse_number_literal("0B11"), Some(3));
    assert_eq!(parse_number_literal("18446744073709551615"), Some(u64::MAX));
    assert_eq!(parse_number_literal("18446744073709551616"), None);
    assert_eq!(parse_number_literal("0xffffffffffffffff"), Some(u64::MAX));
    assert_eq!(parse_number_literal("0x10000000000000000"), None);
    assert_eq!(parse_number_literal(""), None);
    assert_eq!(parse_number_literal("0x"), None);
    assert_eq!(parse_number_literal("u"), None);
    assert_eq!(parse_number_literal("0b12"), None);
    assert_eq!(parse_number_literal("1.5"), None);
    assert_eq!(parse_number_literal("-1"), None);
    assert_eq!(parse_number_literal("+7"), Some(7));
}

#[test]
fn printed_numbers_read_back() {
    for n in [0u64, 7, 10, 99, 4096, 1 << 40, u64::MAX] {
        assert_eq!(parse_number_literal(&format!("{n}")), Some(n));
        assert_eq!(parse_number_literal(&format!("{n}u")), Some(n));
        assert_eq!(parse_number_literal(&format!("0x{n:x}")), Some(n));
        assert_eq!(silicon::text::decimal_text(n), format!("{n}"));
        assert_eq!(silicon::text::hex_text(n), format!("{n:x}"));
        assert_eq!(silicon::text::hex_padded_text(n, 8), format!("{n:08x}"));
    }
}

fn folded_value(expression: &str) -> Option<u64> {
    extract(&format!("void f(void) {{ a_hw->x = {expression}; }}"))[0].value
}

#[test]
fn arithmetic_folds_in_sixty_four_bits() {
    assert_eq!(folded_value("1 + 2 * 3"), Some(7));
    assert_eq!(folded_value("(1 + 2) * 3"), Some(9));
    assert_eq!(folded_value("5 - 7"), Some(u64::MAX - 1));
    assert_eq!(folded_value("0xffffffffffffffff + 1"), Some(0));
    assert_eq!(folded_value("0x8000000000000000 * 2"), Some(0));
    assert_eq!(folded_value("7 / 2"), Some(3));
    assert_eq!(folded_value("7 % 4"), Some(3));
    assert_eq!(folded_value("7 / 0"), None);
    assert_eq!(folded_value("7 % 0"), None);
    assert_eq!(folded_value("6 & 3"), Some(2));
    assert_eq!(folded_value("6 ^ 3"), Some(5));
    assert_eq!(folded_value("1 << 65"), Some(2));
    assert_eq!(folded_value("256 >> 4"), Some(16));
    assert_eq!(folded_value("~0"), Some(u64::MAX));
    assert_eq!(folded_value("-(1)"), Some(u64::MAX));
    assert_eq!(folded_value("+(3)"), Some(3));
    assert_eq!(folded_value("!0"), None);
    assert_eq!(folded_value("1 && 1"), None);
    assert_eq!(folded_value("f()"), None);
    assert_eq!(folded_value("1 + unknown"), None);
}

#[test]
fn every_assignment_operator_is_told_apart() {
    let ops = [
        ("=", AssignOp::Assign),
        ("|=", AssignOp::OrAssign),
        ("&=", AssignOp::AndAssign),
        ("^=", AssignOp::XorAssign),
        ("+=", AssignOp::AddAssign),
        ("-=", AssignOp::SubAssign),
        ("*=", AssignOp::MulAssign),
        ("/=", AssignOp::DivAssign),
        ("%=", AssignOp::ModAssign),
        ("<<=", AssignOp::ShlAssign),
        (">>=", AssignOp::ShrAssign),
    ];
    for (spelling, op) in ops {
        assert_eq!(AssignOp::from_str(spelling), Some(op));
        assert_eq!(silicon::checker::op_text(op), spelling);
        assert_eq!(extract(&format!("void f(void) {{ a_hw->x {spelling} 1; }}"))[0].op, op);
    }
    assert_eq!(AssignOp::from_str("=="), None);
    assert_eq!(AssignOp::from_str(""), None);
}

#[test]
fn names_follow_the_conventions() {
    assert_eq!(peripheral_from_hw_var("pll_sys_hw"), Some("PLL_SYS".to_string()));
    assert_eq!(peripheral_from_hw_var("straße_hw"), Some("STRASSE".to_string()));
    assert_eq!(peripheral_from_hw_var("pll_sys"), None);
    assert_eq!(peripheral_from_base_macro("SIO_BASE"), Some("SIO".to_string()));
    assert_eq!(peripheral_from_base_macro("SIO"), None);
    assert_eq!(register_from_offset_macro("SIO_GPIO_OUT_OFFSET", "SIO"), Some("GPIO_OUT".to_string()));
    assert_eq!(register_from_offset_macro("GPIO25_CTRL_OFFSET", "IO_BANK0"), Some("GPIO25_CTRL".to_string()));
    assert_eq!(register_from_offset_macro("SIO_GPIO_OUT", "SIO"), None);
    let expected = Target::RegsMacro { peripheral: "SIO".to_string(), register: Some("GPIO_OUT".to_string()) };
    assert_eq!(resolve_base_offset_macros("SIO_BASE", "SIO_GPIO_OUT_OFFSET"), expected);
    assert_eq!(resolve_base_offset_macros("SIO_GPIO_OUT_OFFSET", "SIO_BASE"), expected);
    assert_eq!(resolve_base_offset_macros("A", "B"), Target::Unresolved);
    assert_eq!(
        resolve_base_offset_macros("SIO_BASE", "offset"),
        Target::RegsMacro { peripheral: "SIO".to_string(), register: None }
    );
}

#[test]
fn a_bare_base_macro_names_only_its_peripheral() {
    let accesses = extract("void f(void) { *(volatile uint32_t *)SIO_BASE = 1; }");
    assert_eq!(accesses[0].tier, AccessTier::RegsConstant);
    assert_eq!(accesses[0].target, Target::RegsMacro { peripheral: "SIO".to_string(), register: None });
}

#[test]
fn only_modelled_calls_are_extracted() {
    let src = "void f(uint pin) {\n    gpio_init(25);\n    printf(\"x\");\n    gpio_set_function(pin, GPIO_FUNC_SIO);\n}";
    let calls = extract_hal_calls(src, "main.c");
    assert_eq!(calls.len(), 2);
    assert_eq!(calls[0].function, "gpio_init");
    assert_eq!(calls[0].args, vec![Some(25)]);
    assert_eq!(calls[0].line, 2);
    assert_eq!(calls[1].function, "gpio_set_function");
    assert_eq!(calls[1].args, vec![None, None]);
    assert_eq!(calls[1].raw_args, vec!["pin".to_string(), "GPIO_FUNC_SIO".to_string()]);
    assert_eq!(calls[1].file, "main.c");
    assert_eq!(calls[1].line, 4);
}

#[test]
fn a_call_inside_a_call_comes_after_it() {
    let calls = extract_hal_calls("void f(void) { gpio_put(1, gpio_init(2)); }", "main.c");
    assert_eq!(calls.len(), 2);
    assert_eq!(calls[0].function, "gpio_put");
    assert_eq!(calls[0].args, vec![Some(1), None]);
    assert_eq!(calls[1].function, "gpio_init");
}

#[test]
fn definitions_that_are_no_literal_have_no_value() {
    let src = "#define A 1\n#define B (1u << 25)\n#define A 2\n#define C\n#define D  0x10u  \n";
    let root = parse_c(src).expect("C source parses");
    let table = build_macro_table(&root);
    assert_eq!(table.get("A"), Some(&Some(2)));
    assert_eq!(table.get("B"), Some(&None));
    assert_eq!(table.get("C"), Some(&None));
    assert_eq!(table.get("D"), Some(&Some(16)));
    assert_eq!(table.get("E"), None);
    let settled = settled_definitions(&root);
    let expected = vec![
        definition("A", Some(2)),
        definition("B", None),
        definition("A", Some(2)),
        definition("C", None),
        definition("D", Some(16)),
    ];
    assert_eq!(settled, expected);
}

fn definition(name: &str, value: Option<u64>) -> Definition {
    Definition { name: name.to_string(), value }
}

#[test]
fn a_definition_that_is_no_literal_hides_the_others() {
    let file = |path: &str, source: &str| SourceFile { path: path.to_string(), source: source.to_string() };
    let own = "#define PIN (29)\nvoid f(void) { gpio_init(PIN); }\n";
    let other = "#define PIN 30\nvoid f(void) { gpio_init(PIN); }\n";
    let third = "void f(void) { gpio_init(PIN); }\n";
    let table = build_project_macro_table(&[file("own.c", own), file("other.c", other)]);
    assert_eq!(table.get("PIN"), None);
    assert_eq!(extract_hal_calls_with_macros(own, "own.c", &table)[0].args, vec![None]);
    assert_eq!(extract_hal_calls_with_macros(other, "other.c", &table)[0].args, vec![Some(30)]);
    assert_eq!(extract_hal_calls_with_macros(third, "third.c", &table)[0].args, vec![None]);
    // Not even a project that knows the name helps where the file defines it otherwise.
    let mut project = MacroTable::new();
    project.insert("PIN".to_string(), 30);
    assert_eq!(extract_hal_calls_with_macros(own, "own.c", &project)[0].args, vec![None]);
    assert_eq!(extract_hal_calls_with_macros(third, "third.c", &project)[0].args, vec![Some(30)]);
}

#[test]
fn comments_are_no_arguments() {
    let calls = extract_hal_calls(
        "void f(void) { pwm_set_chan_level(/* slice */ 7, 0 /* channel */, 100); gpio_init(/* led */ 30); }",
        "main.c",
    );
    assert_eq!(calls[0].args, vec![Some(7), Some(0), Some(100)]);
    assert_eq!(calls[0].raw_args, vec!["7".to_string(), "0".to_string(), "100".to_string()]);
    assert_eq!(calls[1].args, vec![Some(30)]);
    assert_eq!(folded_value("(/* five */ 5)"), Some(5));
}

#[test]
fn a_project_keeps_only_macros_that_its_files_agree_on() {
    let table = merge_definitions(&[
        definition("SAME", Some(1)),
        definition("OTHER", Some(1)),
        definition("SAME", Some(1)),
        definition("OTHER", Some(2)),
        definition("OTHER", Some(1)),
        definition("OPEN", Some(1)),
        definition("OPEN", None),
        definition("OPEN", Some(1)),
    ]);
    assert_eq!(table.get("SAME"), Some(&1));
    assert_eq!(table.get("OTHER"), None);
    assert_eq!(table.get("OPEN"), None);
}

#[test]
fn macros_are_shared_between_the_files_of_a_project() {
    let header = SourceFile {
        path: "pins.h".to_string(),
        source: "#define LED 25\n#define MODE 1\n".to_string(),
    };
    let main = SourceFile {
        path: "main.c".to_string(),
        source: "#define MODE 2\nvoid f(void) { gpio_init(LED); sio_hw->gpio_out = MODE; }\n".to_string(),
    };
    let other = "void g(void) { sio_hw->gpio_out = MODE; }\n";
    let source = main.source.clone();
    let table = build_project_macro_table(&vec![header, main]);
    let calls = extract_hal_calls_with_macros(&source, "main.c", &table);
    assert_eq!(calls[0].args, vec![Some(25)]);
    // The file's own definition counts in the file, and nowhere else.
    assert_eq!(extract_accesses_with_macros(&source, "main.c", &table)[0].value, Some(2));
    assert_eq!(extract_accesses_with_macros(other, "other.c", &table)[0].value, None);
}

#[test]
fn the_order_of_the_files_does_not_matter() {
    let file = |path: &str, source: &str| SourceFile { path: path.to_string(), source: source.to_string() };
    let a = "#define X 1\n#define Y 2\n";
    let b = "#define X 1\n#define Y 3\n#define Z 4\n";
    let one = build_project_macro_table(&vec![file("a.h", a), file("b.h", b)]);
    let two = build_project_macro_table(&vec![file("b.h", b), file("a.h", a)]);
    for name in ["X", "Y", "Z"] {
        assert_eq!(one.get(name), two.get(name));
    }
    assert_eq!(one.get("X"), Some(&1));
    assert_eq!(one.get("Y"), None);
    assert_eq!(one.get("Z"), Some(&4));
}

fn leaf(kind: &str, text: &str) -> SyntaxNode {
    SyntaxNode { kind: kind.to_string(), named: true, row: 0, text: text.to_string(), children: vec![], fields: vec![] }
}

#[test]
fn a_tree_made_by_hand_folds() {
    let node = SyntaxNode {
        kind: "binary_expression".to_string(),
        named: true,
        row: 3,
        text: "A | 0x10".to_string(),
        children: vec![leaf("identifier", "A"), leaf("|", "|"), leaf("number_literal", "0x10")],
        fields: vec![("left".to_string(), 0), ("operator".to_string(), 1), ("right".to_string(), 2)],
    };
    let mut local = FileMacros::new();
    let project = MacroTable::new();
    assert_eq!(fold_const(&node, &MacroScope { local: &local, project: &project }), None);
    local.insert("A".to_string(), Some(3));
    assert_eq!(fold_const(&node, &MacroScope { local: &local, project: &project }), Some(0x13));
    assert_eq!(node.line(), 4);
}

#[test]
fn the_tree_has_the_texts_and_fields_of_the_source() {
    let root = parse_c("x->y = 1;\n").expect("C source parses");
    assert_eq!(root.kind, "translation_unit");
    assert_eq!(root.text, "x->y = 1;\n");
    let statement = root.first_operand().expect("a statement");
    assert_eq!(statement.text, "x->y = 1;");
    let assignment = statement.first_operand().expect("an assignment");
    assert_eq!(assignment.kind, "assignment_expression");
    assert_eq!(assignment.child_by_field_name("left").unwrap().text, "x->y");
    assert_eq!(assignment.child_by_field_name("operator").unwrap().text, "=");
    assert!(!assignment.child_by_field_name("operator").unwrap().named);
    assert_eq!(assignment.child_by_field_name("right").unwrap().text, "1");
    assert!(assignment.child_by_field_name("nothing").is_none());
    assert_eq!(assignment.operand_nodes().len(), 2);
}

#[test]
fn text_outside_ascii_is_read() {
    let accesses = extract("// Größe — ✗\nvoid f(void) { sio_hw->gpio_out = 1; /* ü */ }");
    assert_eq!(accesses.len(), 1);
    assert_eq!(accesses[0].line, 2);
    assert_eq!(accesses[0].raw_lhs, "sio_hw->gpio_out");
}

#[test]
fn source_that_does_not_compile_is_read_as_far_as_it_goes() {
    assert!(extract("").is_empty());
    assert!(extract("this is (not C").is_empty());
}
