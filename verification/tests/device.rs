//! The model of a device, checks against it, and what is reported of them. The device is
//! an excerpt of the RP2040.

use silicon::baseline::{baseline_of, suppress_baselined, BaselineEntry};
use silicon::checker::{check, field_mask};
use silicon::command::{answer_from_svd, Command};
use silicon::finding::{CheckResult, Finding, FindingKind, IndexEvidence, Note, Severity};
use silicon::fw_parse::{extract_accesses, extract_hal_calls, SourceFile};
use silicon::hal_check::check_hal_calls;
use silicon::listing::{list_fields, list_peripherals, list_registers};
use silicon::messages::fmt_enum_list;
use silicon::options::{FailOn, Format};
use silicon::project::{check_all, check_files, conclude, finish, should_fail, Outcome, ReportOptions};
use silicon::report::{render_notes_text, render_text, SourceCache};
use silicon::sarif::render_sarif;
use silicon::svd::Access;
use silicon::svd_items::{is_expandable, ItemHead, ItemKind, SvdItem};
use silicon::svd_model::{AddressLookup, EnumValue, Model};
use silicon::svd_source::ModelError;

// ── The device ───────────────────────────────────────────────────────────────

fn values(list: &[(&str, u64)]) -> String {
    let mut out = String::from("<enumeratedValues>");
    for (name, value) in list {
        out += &format!("<enumeratedValue><name>{name}</name><value>{value}</value></enumeratedValue>");
    }
    out + "</enumeratedValues>"
}

fn field(name: &str, range: &str, access: &str, more: &str) -> String {
    format!("<field><name>{name}</name><bitRange>{range}</bitRange><access>{access}</access>{more}</field>")
}

fn register(name: &str, offset: u32, more: &str, fields: &str) -> String {
    let fields = if fields.is_empty() { String::new() } else { format!("<fields>{fields}</fields>") };
    format!(
        "<register><name>{name}</name><description>{name}</description>\
         <addressOffset>0x{offset:x}</addressOffset>{more}<resetValue>0x0</resetValue>{fields}</register>"
    )
}

fn peripheral(name: &str, base: u32, size: u32, registers: &str) -> String {
    format!(
        "<peripheral><name>{name}</name><baseAddress>0x{base:x}</baseAddress>\
         <addressBlock><offset>0</offset><size>0x{size:x}</size><usage>registers</usage></addressBlock>\
         <registers>{registers}</registers></peripheral>"
    )
}

const AUXSRC: [(&str, u64); 11] = [
    ("clksrc_pll_sys", 0),
    ("clksrc_gpin0", 1),
    ("clksrc_gpin1", 2),
    ("clksrc_pll_usb", 3),
    ("rosc_clksrc", 4),
    ("xosc_clksrc", 5),
    ("clk_sys", 6),
    ("clk_usb", 7),
    ("clk_adc", 8),
    ("clk_rtc", 9),
    ("clk_ref", 10),
];

fn rp2040_svd() -> String {
    let rw = "read-write";
    let funcsel25 = values(&[
        ("spi1_ss_n", 1), ("uart1_rx", 2), ("i2c0_scl", 3), ("pwm_b_4", 4), ("sio_25", 5),
        ("pio0_25", 6), ("pio1_25", 7), ("clocks_gpout_3", 8), ("usb_muxing_vbus_en", 9), ("null", 31),
    ]);
    let funcsel0 = values(&[
        ("jtag_tck", 0), ("spi0_rx", 1), ("uart0_tx", 2), ("i2c0_sda", 3), ("pwm_a_0", 4),
        ("sio_0", 5), ("pio0_0", 6), ("pio1_0", 7), ("usb_muxing_overcurr_detect", 9), ("null", 31),
    ]);
    let read_values = "<enumeratedValues><usage>read</usage>\
        <enumeratedValue><name>locked</name><value>1</value></enumeratedValue></enumeratedValues>";

    let mut p = String::new();
    p += &peripheral("CLOCKS", 0x40008000, 0x1000, &register("CLK_GPOUT0_CTRL", 0, "", &[
        field("NUDGE", "[20:20]", rw, ""),
        field("PHASE", "[17:16]", rw, ""),
        field("ENABLE", "[11:11]", rw, ""),
        field("KILL", "[10:10]", rw, ""),
        field("AUXSRC", "[8:5]", rw, &values(&AUXSRC)),
    ].concat()));
    p += &peripheral("IO_BANK0", 0x40014000, 0x1000, &[
        register("GPIO0_CTRL", 0x4, "", &field("FUNCSEL", "[4:0]", rw, &funcsel0)),
        register("GPIO1_CTRL", 0xc, "", &field("FUNCSEL", "[4:0]", rw, "")),
        register("GPIO25_CTRL", 0xcc, "", &field("FUNCSEL", "[4:0]", rw, &funcsel25)),
    ].concat());
    p += &peripheral("PLL_SYS", 0x40028000, 0x1000, &[
        register("CS", 0x0, "", &[
            field("REFDIV", "[5:0]", rw, ""),
            field("BYPASS", "[8:8]", rw, ""),
            field("LOCK", "[31:31]", "read-only", read_values),
        ].concat()),
        register("FBDIV_INT", 0x8, "", &field("FBDIV_INT", "[11:0]", rw, "")),
    ].concat());
    p += &peripheral("SIO", 0xd0000000, 0x1000, &[
        register("CPUID", 0x0, "", &field("CPUID", "[31:0]", "read-only", "")),
        register("GPIO_IN", 0x4, "<access>read-only</access>", &field("GPIO_IN", "[29:0]", "read-only", "")),
        register("GPIO_OUT", 0x10, "", &field("GPIO_OUT", "[29:0]", rw, "")),
        register("GPIO_OE", 0x20, "", &field("GPIO_OE", "[29:0]", rw, "")),
        register("SPARE", 0x30, "<size>16</size>", ""),
    ].concat());
    let tops: String = (0..8).map(|n| register(&format!("CH{n}_TOP"), n * 20 + 16, "", "")).collect();
    p += &peripheral("PWM", 0x40050000, 0x1000, &tops);
    let triggers: String = (0..12).map(|n| register(&format!("CH{n}_CTRL_TRIG"), n * 64 + 12, "", "")).collect();
    p += &peripheral("DMA", 0x50000000, 0x1000, &triggers);
    p += &peripheral("ADC", 0x4004c000, 0x1000, &register("CS", 0, "", &field("AINSEL", "[14:12]", rw, "")));
    for (name, base) in [
        ("UART0", 0x40034000), ("UART1", 0x40038000), ("SPI0", 0x4003c000), ("SPI1", 0x40040000),
        ("I2C0", 0x40044000), ("I2C1", 0x40048000),
    ] {
        p += &peripheral(name, base, 0x1000, &register("CR", 0, "", ""));
    }
    format!(
        "<?xml version=\"1.0\" encoding=\"utf-8\"?>\
         <device schemaVersion=\"1.1\"><name>RP2040</name><version>0.1</version>\
         <description>Excerpt</description><addressUnitBits>8</addressUnitBits><width>32</width>\
         <size>32</size><peripherals>{p}</peripherals></device>"
    )
}

fn rp2040_model() -> Model {
    Model::from_svd_str(&rp2040_svd()).expect("the excerpt must parse")
}

// ── The model ────────────────────────────────────────────────────────────────

#[test]
fn sio_gpio_oe_has_no_enum_and_is_unverifiable() {
    let model = rp2040_model();
    let field = model
        .field("SIO", "GPIO_OE", "GPIO_OE")
        .expect("SIO.GPIO_OE.GPIO_OE must exist in the RP2040 SVD");
    assert_eq!(field.bit_offset, 0);
    assert_eq!(field.bit_width, 30);
    assert_eq!(field.access, Access::ReadWrite);
    assert_eq!(field.reset_value, Some(0));
    assert!(
        field.allowed_values.is_none(),
        "GPIO_OE has no SVD enum; membership must be reported unverifiable, not guessed"
    );
}

#[test]
fn pll_sys_fbdiv_int_has_no_enum_and_is_unverifiable() {
    let model = rp2040_model();
    let field = model
        .field("PLL_SYS", "FBDIV_INT", "FBDIV_INT")
        .expect("PLL_SYS.FBDIV_INT.FBDIV_INT must exist in the RP2040 SVD");
    assert_eq!(field.bit_offset, 0);
    assert_eq!(field.bit_width, 12);
    assert_eq!(field.access, Access::ReadWrite);
    assert!(field.allowed_values.is_none());
}

#[test]
fn clocks_gpout0_ctrl_auxsrc_has_enum_with_known_values() {
    let model = rp2040_model();
    let field = model
        .field("CLOCKS", "CLK_GPOUT0_CTRL", "AUXSRC")
        .expect("CLOCKS.CLK_GPOUT0_CTRL.AUXSRC must exist in the RP2040 SVD");
    assert_eq!(field.bit_offset, 5);
    assert_eq!(field.bit_width, 4);
    let allowed = field
        .allowed_values
        .as_ref()
        .expect("AUXSRC has an SVD enum and must be verifiable");
    assert_eq!(allowed.len(), 11);
    assert!(allowed.iter().any(|v| v.name == "clksrc_pll_sys" && v.value == 0));
    assert!(allowed.iter().any(|v| v.name == "clk_ref" && v.value == 10));

    // 11 fits in four bits but is not in the enumeration.
    assert!(!allowed.iter().any(|v| v.value == 11));
    // 16 does not even fit in four bits, which is another class of violation.
    assert!(16 >= (1u64 << field.bit_width));
}

#[test]
fn unknown_peripheral_register_field_resolve_to_none() {
    let model = rp2040_model();
    assert!(model.peripheral("NOT_A_PERIPHERAL").is_none());
    assert!(model.register("SIO", "NOT_A_REGISTER").is_none());
    assert!(model.field("SIO", "GPIO_OE", "NOT_A_FIELD").is_none());
}

#[test]
fn a_document_that_is_no_svd_is_refused() {
    let error = Model::from_svd_str("<device>").expect_err("must be refused");
    assert_eq!(error.message(), "failed to parse SVD");
    assert!(matches!(error, ModelError::Parse(_)));
    assert!(Model::from_svd_str("").is_err());
}

fn small_device(peripherals: &str) -> String {
    format!(
        "<device schemaVersion=\"1.1\"><name>D</name><version>1</version><description>d</description>\
         <addressUnitBits>8</addressUnitBits><width>32</width><size>32</size>\
         <peripherals>{peripherals}</peripherals></device>"
    )
}

fn model_of(peripherals: &str) -> Result<Model, ModelError> {
    Model::from_svd_str(&small_device(peripherals))
}

fn derived(name: &str, from: &str) -> String {
    format!("<peripheral derivedFrom=\"{from}\"><name>{name}</name><baseAddress>0x2000</baseAddress></peripheral>")
}

#[test]
fn derived_peripherals_have_the_registers_of_the_first() {
    let first = peripheral("A", 0x1000, 0x100, &register("R", 4, "", &field("F", "[3:0]", "read-only", "")));
    let model = model_of(&[first, derived("B", "A"), derived("C", "B")].concat()).expect("must parse");
    assert_eq!(model.register("B", "R").unwrap().address_offset, 4);
    assert_eq!(model.field("C", "R", "F").unwrap().access, Access::ReadOnly);
}

#[test]
fn derivations_in_a_circle_are_refused() {
    let circle = [derived("A", "B"), derived("B", "C"), derived("C", "B")].concat();
    assert!(matches!(model_of(&circle), Err(ModelError::Unexpandable)));
    assert!(matches!(model_of(&derived("A", "A")), Err(ModelError::Unexpandable)));
    // What is derived from nothing is refused by the parser.
    assert!(matches!(model_of(&derived("A", "B")), Err(ModelError::Parse(_))));
    let field_from = |from: &str| {
        let fields = format!(
            "<field><name>F</name><bitRange>[0:0]</bitRange></field>\
             <field derivedFrom=\"{from}\"><name>G</name><bitRange>[1:1]</bitRange></field>"
        );
        model_of(&peripheral("A", 0x1000, 0x100, &register("R", 0, "", &fields)))
    };
    assert!(field_from("F").is_ok());
    assert!(field_from("A.R.F").is_ok());
    assert!(matches!(field_from("R.F"), Err(ModelError::Unexpandable)));
    assert!(matches!(field_from("A.R.G"), Err(ModelError::Unexpandable)));
}

#[test]
fn clusters_that_hold_themselves_are_refused() {
    let cluster = |name: &str, offset: &str, from: &str, inner: &str| {
        format!("<cluster{from}><name>{name}</name><addressOffset>{offset}</addressOffset>{inner}</cluster>")
    };
    let r = register("R", 4, "", "");
    let fine = [cluster("X", "0x10", "", &r), cluster("Y", "0x20", " derivedFrom=\"X\"", "")].concat();
    let model = model_of(&peripheral("A", 0x1000, 0x100, &fine)).expect("must parse");
    assert_eq!(model.register("A", "Y_R").unwrap().address_offset, 0x24);
    let inner = [r.clone(), cluster("Z", "0x8", " derivedFrom=\"A.X\"", "")].concat();
    let own = peripheral("A", 0x1000, 0x100, &cluster("X", "0x10", "", &inner));
    assert!(matches!(model_of(&own), Err(ModelError::Unexpandable)));
    let high = peripheral("A", 0x1000, 0x100, &cluster("X", "0xfffffffe", "", &r));
    assert!(matches!(model_of(&high), Err(ModelError::Unexpandable)));
}

#[test]
fn offsets_that_do_not_fit_are_refused() {
    let array = |offset: u32, count: u32| {
        let r = format!(
            "<register><dim>{count}</dim><dimIncrement>4</dimIncrement><name>R%s</name>\
             <addressOffset>0x{offset:x}</addressOffset></register>"
        );
        model_of(&peripheral("A", 0x1000, 0x100, &r))
    };
    assert_eq!(array(0xfffffff0, 4).unwrap().register("A", "R3").unwrap().address_offset, 0xfffffffc);
    assert!(matches!(array(0xfffffff0, 5), Err(ModelError::Unexpandable)));
}

fn with_element(more: &str, field: &str) -> Result<Model, ModelError> {
    model_of(&peripheral("A", 0, 4, &register("R", 0, more, &format!("<field><name>F</name>{field}</field>"))))
}

#[test]
fn elements_that_cannot_be_read_are_refused() {
    let range = "<bitRange>[3:0]</bitRange>";
    assert!(with_element("", range).is_ok());
    assert!(with_element("<writeConstraint> <!-- c --> <range><minimum>0</minimum><maximum>1</maximum></range></writeConstraint>", range).is_ok());
    assert!(with_element("<!-- <writeConstraint/> -->", range).is_ok());
    for bad in ["<writeConstraint/>", "<writeConstraint></writeConstraint>", "<writeConstraint a='>'><!-- <x/> --> </writeConstraint>"] {
        assert!(matches!(with_element(bad, range), Err(ModelError::Unreadable)));
        assert!(matches!(with_element("", &format!("{range}{bad}")), Err(ModelError::Unreadable)));
    }
    let ones = "1".repeat(32);
    for bad in [
        "<bitRange>[4294967295:0]</bitRange>".to_string(),
        "<bitRange>[+4294967295:00]</bitRange>".to_string(),
        "<bitRange>[429496729&#53;:0]</bitRange>".to_string(),
        "<bitRange>[429496729&#x35;:&#48;]</bitRange>".to_string(),
        "<bitRange>[4294<![CDATA[967295:]]>0]</bitRange>".to_string(),
        "<lsb>0</lsb><msb> 0xFFFFFFFF </msb>".to_string(),
        "<msb>&#xA0;4294967295</msb><lsb>#xX</lsb>".to_string(),
        format!("<lsb>0</lsb><msb>0b{ones}</msb>"),
        format!("<lsb>0</lsb><msb>0bx{ones}</msb>"),
        format!("<lsb>0</lsb><msb>#{ones}</msb>"),
        format!("<lsb>0</lsb><msb>#x{ones}</msb>"),
        format!("<lsb>0</lsb><msb>#X{ones}</msb>"),
    ] {
        assert!(matches!(with_element("", &bad), Err(ModelError::Unreadable)), "{bad}");
    }
    assert!(matches!(with_element("", "<bitRange>[0:3]</bitRange>"), Err(ModelError::Parse(_))));
}

#[test]
fn names_of_elements_end_where_xml_ends_them() {
    let prefixed = |name: &str| {
        let more = format!("<{name}/>");
        let svd = small_device(&peripheral("A", 0, 4, &register("R", 0, &more, "")));
        Model::from_svd_str(&svd.replacen("<device ", "<device xmlns:p=\"u\" xmlns:p\u{1680}=\"u\" ", 1))
    };
    assert!(matches!(prefixed("p:writeConstraint"), Err(ModelError::Unreadable)));
    assert!(matches!(prefixed("p\u{1680}:writeConstraint"), Err(ModelError::Unreadable)));
    assert!(prefixed("p:other").is_ok());
    assert!(prefixed("writeConstraint\u{1680}").is_ok());
}

#[test]
fn elements_are_refused_only_where_they_are_read() {
    let f = |field: &str| with_element("", field).map(|m| {
        let f = m.field("A", "R", "F").unwrap();
        (f.bit_offset, f.bit_width)
    });
    // The lowest bit makes the difference, and it is that of the same field.
    assert_eq!(f("<bitRange>[4294967295:5]</bitRange>").unwrap(), (5, 4294967291));
    assert_eq!(f("<lsb>0x1</lsb><msb>0xFFFFFFFF</msb>").unwrap(), (1, 4294967295));
    assert_eq!(f("<lsb>1</lsb><msb>4294967295</msb><lsb>0</lsb>").unwrap(), (1, 4294967295));
    // The first of each is read, and a range before the two bits.
    assert_eq!(f("<bitRange>[3:0]</bitRange><lsb>0</lsb><msb>4294967295</msb>").unwrap(), (0, 4));
    assert_eq!(f("<bitRange>[3:0]</bitRange><bitRange>[4294967295:0]</bitRange>").unwrap(), (0, 4));
    // References and raw text are read as the parser reads them; a comment ends the text.
    assert_eq!(f("<bitRange>[&#51;:0]</bitRange>").unwrap(), (0, 4));
    assert_eq!(f("<bitRange>[<![CDATA[3]]>:&#x30;]</bitRange>").unwrap(), (0, 4));
    assert_eq!(f("<lsb>0</lsb><msb>3<!-- -->4294967295</msb>").unwrap(), (0, 4));
    assert!(matches!(f("<bitRange>[&gt;:0]</bitRange>"), Err(ModelError::Parse(_))));
    assert!(matches!(f("<bitRange>[&unknown;:0]</bitRange>"), Err(ModelError::Parse(_))));
    // Elsewhere nothing is looked for.
    let range = "<bitRange>[3:0]</bitRange>";
    assert!(with_element("<vendor><writeConstraint/><bitRange>[4294967295:0]</bitRange></vendor>", range).is_ok());
    let constraint = "<writeConstraint><writeAsRead>true</writeAsRead></writeConstraint>";
    assert!(with_element(&format!("{constraint}<writeConstraint/>"), range).is_ok());
    let extensions = "<device><name>D</name><peripherals/><writeConstraint/></device>";
    assert!(!matches!(Model::from_svd_str(extensions), Err(ModelError::Unreadable)));
}

fn item(kind: ItemKind, name: &str, from: Option<String>, items: Vec<SvdItem>) -> SvdItem {
    let head = ItemHead { name: Some(name.to_string()), elements: Vec::new(), derived_from: from, dim: None };
    SvdItem { kind, head, offset: 0, own: !items.is_empty(), items }
}

#[test]
fn long_chains_of_derivations_are_followed() {
    let name = |i: usize| format!("P{}.R{i}", i / 50);
    let document = |first: Option<String>| {
        let peripheral = |p: usize| {
            let register = |i: usize| {
                let from = if i == 0 { first.clone() } else { Some(name(i - 1)) };
                item(ItemKind::Register, &format!("R{i}"), from, Vec::new())
            };
            item(ItemKind::Peripheral, &format!("P{p}"), None, (50 * p..50 * p + 50).map(register).collect())
        };
        (0..24).map(peripheral).collect::<Vec<SvdItem>>()
    };
    assert!(is_expandable(&document(None)));
    assert!(is_expandable(&document(Some("P9.NONE".to_string()))));
    assert!(!is_expandable(&document(Some(name(1199)))));
    assert!(!is_expandable(&document(Some(name(700)))));
}

#[test]
fn clusters_nest_as_deep_as_there_are_clusters() {
    let mut inner = vec![item(ItemKind::Register, "R", None, Vec::new())];
    for i in 0..200 {
        inner = vec![item(ItemKind::Cluster, &format!("C{i}"), None, inner)];
    }
    let document = vec![item(ItemKind::Peripheral, "P", None, inner)];
    assert!(is_expandable(&document));
    // The cluster B in A takes what A holds.
    let b = item(ItemKind::Cluster, "B", Some("P.A".to_string()), Vec::new());
    let a = item(ItemKind::Cluster, "A", None, vec![b]);
    assert!(!is_expandable(&vec![item(ItemKind::Peripheral, "P", None, vec![a])]));
}

#[test]
fn an_index_in_a_name_takes_the_array_that_is_derived_from() {
    let registers = |from: &str, offset: &str| {
        format!(
            "<register><dim>2</dim><dimIncrement>4</dimIncrement><name>A%s</name><addressOffset>0</addressOffset></register>\
             <register><dim>2</dim><dimIncrement>0xfffffff0</dimIncrement><name>W%s</name><addressOffset>0</addressOffset></register>\
             <register derivedFrom=\"{from}\"><name>B%s</name><addressOffset>{offset}</addressOffset></register>"
        )
    };
    let of = |from: &str, offset: &str| model_of(&peripheral("P", 0, 0x100, &registers(from, offset)));
    assert_eq!(of("A%s", "0x20").unwrap().register("P", "B1").unwrap().address_offset, 0x24);
    assert_eq!(of("W%s", "0xf").unwrap().register("P", "B1").unwrap().address_offset, 0xffffffff);
    assert!(matches!(of("W%s", "0x10"), Err(ModelError::Unexpandable)));
    assert!(matches!(of("A1", "0xfffffffc"), Err(ModelError::Unexpandable)));
}

#[test]
fn enumerations_of_reads_say_nothing_about_writes() {
    let model = rp2040_model();
    let lock = model.field("PLL_SYS", "CS", "LOCK").unwrap();
    assert_eq!(lock.access, Access::ReadOnly);
    assert!(lock.allowed_values.is_none());
    assert_eq!(field_mask(lock), 1 << 31);
}

#[test]
fn clusters_and_arrays_are_flattened() {
    let registers = "<cluster><name>BLOCK</name><description>b</description><addressOffset>0x100</addressOffset>\
        <register><dim>2</dim><dimIncrement>4</dimIncrement><name>CH%s_TOP</name><description>c</description>\
        <addressOffset>0x10</addressOffset></register></cluster>";
    let svd = format!(
        "<device schemaVersion=\"1.1\"><name>D</name><version>1</version><description>d</description>\
         <addressUnitBits>8</addressUnitBits><width>32</width><size>32</size><access>read-only</access>\
         <resetValue>0x5</resetValue><peripherals>{}</peripherals></device>",
        peripheral("P", 0x1000, 0x1000, registers)
    );
    let model = Model::from_svd_str(&svd).expect("must parse");
    let p = model.peripheral("P").unwrap();
    assert_eq!(p.registers.len(), 2);
    assert_eq!(p.registers[0].address_offset, 0x110);
    assert_eq!(p.registers[1].address_offset, 0x114);
    assert!(p.registers[0].name.ends_with("CH0_TOP"));
    // Properties of the device hold for its registers.
    assert_eq!(p.registers[0].access, Access::ReadOnly);
    assert_eq!(p.registers[0].reset_value, Some(5));
    assert_eq!(p.registers[0].size_bits, 32);
}

#[test]
fn addresses_resolve_to_registers_and_blocks() {
    let model = rp2040_model();
    match model.resolve_address(0xd0000010) {
        AddressLookup::Register(p, r) => assert_eq!((p.name.as_str(), r.name.as_str()), ("SIO", "GPIO_OUT")),
        other => panic!("expected a register, got {other:?}"),
    }
    match model.resolve_address(0xd0000fff) {
        AddressLookup::WithinPeripheral(p) => assert_eq!(p.name, "SIO"),
        other => panic!("expected a peripheral, got {other:?}"),
    }
    assert!(matches!(model.resolve_address(0xd0001000), AddressLookup::Unmapped));
    assert!(matches!(model.resolve_address(0), AddressLookup::Unmapped));
    assert!(matches!(model.resolve_address(u64::MAX), AddressLookup::Unmapped));
}

// ── Register checks ──────────────────────────────────────────────────────────

fn check_src(model: &Model, src: &str) -> CheckResult {
    let accesses = extract_accesses(src, "test.c");
    check(model, &accesses)
}

fn check_write(statement: &str) -> CheckResult {
    check_src(&rp2040_model(), &format!("void f(void) {{ {statement} }}"))
}

#[test]
fn write_to_read_only_field_is_flagged() {
    let model = rp2040_model();
    // The only field of SIO.CPUID is read-only.
    let result = check_src(&model, "void f(void) { sio_hw->cpuid = 5; }");
    assert_eq!(result.findings.len(), 1);
    match &result.findings[0].kind {
        FindingKind::WriteToReadOnlyField { peripheral, register, field } => {
            assert_eq!(peripheral, "SIO");
            assert_eq!(register, "CPUID");
            assert_eq!(field, "CPUID");
        }
        other => panic!("expected WriteToReadOnlyField, got {other:?}"),
    }
}

#[test]
fn nonexistent_register_on_real_peripheral_is_flagged() {
    let model = rp2040_model();
    let result = check_src(&model, "void f(void) { sio_hw->not_a_real_register = 1; }");
    assert_eq!(result.findings.len(), 1);
    match &result.findings[0].kind {
        FindingKind::NonexistentRegister { peripheral, register } => {
            assert_eq!(peripheral, "SIO");
            assert_eq!(register, "NOT_A_REAL_REGISTER");
        }
        other => panic!("expected NonexistentRegister, got {other:?}"),
    }
}

#[test]
fn literal_address_inside_peripheral_but_not_a_register_is_flagged() {
    let model = rp2040_model();
    // SIO is based at 0xd0000000; no register is at this offset.
    let result = check_src(&model, "void f(void) { *(volatile uint32_t *)(0xd0000001u) = 1; }");
    assert_eq!(result.findings.len(), 1);
    match &result.findings[0].kind {
        FindingKind::AddressNotARegister { peripheral, address } => {
            assert_eq!(peripheral, "SIO");
            assert_eq!(*address, 0xd0000001);
        }
        other => panic!("expected AddressNotARegister, got {other:?}"),
    }
}

#[test]
fn literal_address_outside_any_peripheral_is_a_note_not_a_finding() {
    let model = rp2040_model();
    let result = check_src(&model, "void f(void) { *(volatile uint32_t *)(0xffffffffu) = 1; }");
    assert!(result.findings.is_empty());
    assert!(result
        .notes
        .iter()
        .any(|n| matches!(n.note, Note::AddressNotMapped { address: 0xffffffff })));
}

#[test]
fn unknown_peripheral_guess_is_a_note_not_a_finding() {
    let model = rp2040_model();
    let result = check_src(&model, "void f(void) { my_custom_hw->thing = 1; }");
    assert!(result.findings.is_empty());
    assert!(result
        .notes
        .iter()
        .any(|n| matches!(&n.note, Note::UnknownPeripheralGuess { peripheral } if peripheral == "MY_CUSTOM")));
}

#[test]
fn unresolved_target_is_a_note_not_a_finding() {
    let model = rp2040_model();
    let result = check_src(&model, "void f(volatile uint32_t *reg) { *reg = 5; }");
    assert!(result.findings.is_empty());
    assert!(result.notes.iter().any(|n| n.note == Note::UnresolvedAccess));
}

#[test]
fn and_assign_skips_value_dependent_checks() {
    let model = rp2040_model();
    // `&=` never sets a bit, so that bits outside the fields must not be flagged.
    let result = check_src(&model, "void f(void) { pll_sys_hw->fbdiv_int &= 0xFFFFFFFFu; }");
    assert!(result.findings.is_empty());
    assert!(result.notes.iter().any(|n| matches!(
        &n.note,
        Note::ValueNotDeterminableForOp { peripheral, register }
            if peripheral == "PLL_SYS" && register == "FBDIV_INT"
    )));
}

#[test]
fn field_with_no_enum_is_a_note_not_a_finding() {
    let model = rp2040_model();
    // FBDIV_INT has no enumeration: which values it takes is unverifiable.
    let result = check_src(&model, "void f(void) { pll_sys_hw->fbdiv_int = 100; }");
    assert!(result.findings.is_empty());
    assert!(result.notes.iter().any(|n| matches!(
        &n.note,
        Note::FieldUnverifiableNoEnum { peripheral, register, field }
            if peripheral == "PLL_SYS" && register == "FBDIV_INT" && field == "FBDIV_INT"
    )));
}

#[test]
fn finding_kind_display_cites_svd_facts() {
    let model = rp2040_model();
    let result = check_src(&model, "void f(void) { clocks_hw->clk_gpout0_ctrl = 12u << 5; }");
    let text = result.findings[0].kind.to_string();
    assert!(text.contains("CLOCKS.CLK_GPOUT0_CTRL.AUXSRC"));
    assert!(text.contains("clksrc_pll_sys=0"));
    assert_eq!(result.findings[0].kind.rule_id(), "field-value-not-in-enum");
}

const CLOCK_CORRECT: &str = "// Route the system PLL to GPOUT0.
#include <stdint.h>
#include \"hardware/structs/clocks.h\"

#define AUXSRC_LSB 5u

void route(void) {
    clocks_hw->clk_gpout0_ctrl = (0u << AUXSRC_LSB) | (1u << 11);
}
";

const CLOCK_BAD_ENUM: &str = "// Route a clock to GPOUT0 by a source that does not exist.
#include <stdint.h>
#include \"hardware/structs/clocks.h\"

#define AUXSRC_LSB 5u

// The clock sources of GPOUT0 are numbered from 0 to 10.

void setup(void);

void route(void) {
    setup();
    // There is no source 12.
    clocks_hw->clk_gpout0_ctrl = 12u << AUXSRC_LSB;
}
";

const PLL_CORRECT: &str = "#define PLL_SYS_BASE 0x40028000u
#define PLL_SYS_FBDIV_INT_OFFSET 0x08u

void tune(void) {
    *(volatile uint32_t *)(PLL_SYS_BASE + PLL_SYS_FBDIV_INT_OFFSET) = 125u;
    pll_sys_hw->fbdiv_int = 100;
}
";

const PLL_TOO_WIDE: &str = "// The feedback divider has twelve bits.
#include <stdint.h>
#include \"hardware/structs/pll.h\"

#define PLL_SYS_BASE 0x40028000u
#define PLL_SYS_FBDIV_INT_OFFSET 0x08u

void setup(void);

void tune(void) {
    setup();
    // A correct value first.
    pll_sys_hw->fbdiv_int = 125;

    // 5000 needs thirteen bits.
    *(volatile uint32_t *)(PLL_SYS_BASE + PLL_SYS_FBDIV_INT_OFFSET) = 5000u;
}
";

#[test]
fn correct_clock_auxsrc_produces_zero_findings() {
    let model = rp2040_model();
    let result = check_src(&model, CLOCK_CORRECT);
    assert!(
        result.findings.is_empty(),
        "expected zero findings on known-correct firmware, got {:?}",
        result.findings
    );
}

#[test]
fn hallucinated_clock_auxsrc_flags_exactly_that_line() {
    let model = rp2040_model();
    let result = check_src(&model, CLOCK_BAD_ENUM);
    assert_eq!(
        result.findings.len(),
        1,
        "expected exactly one finding, got {:?}",
        result.findings
    );
    let f = &result.findings[0];
    assert_eq!(f.line, 14);
    match &f.kind {
        FindingKind::FieldValueNotInEnum { peripheral, register, field, value, allowed } => {
            assert_eq!(peripheral, "CLOCKS");
            assert_eq!(register, "CLK_GPOUT0_CTRL");
            assert_eq!(field, "AUXSRC");
            assert_eq!(*value, 12);
            assert_eq!(allowed.len(), 11);
            assert!(!allowed.iter().any(|v| v.value == 12));
        }
        other => panic!("expected FieldValueNotInEnum, got {other:?}"),
    }
}

#[test]
fn correct_pll_fbdiv_produces_zero_findings() {
    let model = rp2040_model();
    let result = check_src(&model, PLL_CORRECT);
    assert!(
        result.findings.is_empty(),
        "expected zero findings on known-correct firmware, got {:?}",
        result.findings
    );
}

#[test]
fn hallucinated_pll_fbdiv_too_wide_flags_exactly_that_line() {
    let model = rp2040_model();
    let result = check_src(&model, PLL_TOO_WIDE);
    assert_eq!(
        result.findings.len(),
        1,
        "expected exactly one finding, got {:?}",
        result.findings
    );
    let f = &result.findings[0];
    assert_eq!(f.line, 16);
    match &f.kind {
        FindingKind::ValueSetsUndefinedBits { peripheral, register, value, defined_mask } => {
            assert_eq!(peripheral, "PLL_SYS");
            assert_eq!(register, "FBDIV_INT");
            assert_eq!(*value, 5000);
            assert_eq!(*defined_mask, 0xFFF);
        }
        other => panic!("expected ValueSetsUndefinedBits, got {other:?}"),
    }
}

#[test]
fn the_wrong_function_of_the_led_pin_is_flagged() {
    let write = |value: u32| {
        check_write(&format!("*(volatile uint32_t *)(IO_BANK0_BASE + GPIO25_CTRL_OFFSET) = {value}u;"))
    };
    let wrong = write(0);
    assert_eq!(wrong.findings.len(), 1);
    assert_eq!(wrong.findings[0].kind.title(), "IO_BANK0.GPIO25_CTRL.FUNCSEL — value 0 not in SVD enum");
    assert!(write(5).findings.is_empty());
}

#[test]
fn write_to_read_only_register_is_flagged_whatever_is_written() {
    let result = check_write("sio_hw->gpio_in = unknown();");
    assert_eq!(result.findings.len(), 1);
    assert_eq!(
        result.findings[0].kind,
        FindingKind::WriteToReadOnlyRegister { peripheral: "SIO".into(), register: "GPIO_IN".into() }
    );
    assert_eq!(
        result.notes[0].note,
        Note::ValueNotStaticallyKnown { peripheral: "SIO".into(), register: "GPIO_IN".into() }
    );
    // Both the register and its field are read-only.
    let rules: Vec<&str> = check_write("sio_hw->gpio_in = 1;").findings.iter().map(|f| f.kind.rule_id()).collect();
    assert_eq!(rules, vec!["write-to-read-only-register", "write-to-read-only-field"]);
}

#[test]
fn value_wider_than_the_register_is_flagged() {
    let result = check_write("sio_hw->spare = 0x10000;");
    assert_eq!(
        result.findings[0].kind,
        FindingKind::ValueExceedsRegisterWidth {
            peripheral: "SIO".into(),
            register: "SPARE".into(),
            value: 0x10000,
            size_bits: 16,
        }
    );
    assert_eq!(
        result.notes[0].note,
        Note::RegisterHasNoFields { peripheral: "SIO".into(), register: "SPARE".into() }
    );
    assert!(check_write("sio_hw->spare = 0xffff;").findings.is_empty());
}

#[test]
fn or_assign_judges_only_what_it_determines() {
    // 12 << 5 sets two of the four bits of AUXSRC: what the others are is not known.
    assert!(check_write("clocks_hw->clk_gpout0_ctrl |= 12u << 5;").findings.is_empty());
    // 15 << 5 sets them all.
    let full = check_write("clocks_hw->clk_gpout0_ctrl |= 15u << 5;");
    assert_eq!(full.findings.len(), 1);
    assert_eq!(full.findings[0].raw_op, "|=");
    assert!(matches!(&full.findings[0].kind, FindingKind::FieldValueNotInEnum { value: 15, .. }));
    // Bits outside all fields, and of read-only fields, are set in any case.
    assert_eq!(check_write("pll_sys_hw->fbdiv_int |= 0x1000;").findings[0].kind.rule_id(), "value-sets-undefined-bits");
    assert_eq!(check_write("pll_sys_hw->cs |= 1u << 31;").findings[0].kind.rule_id(), "write-to-read-only-field");
}

#[test]
fn other_operators_are_never_judged_by_value() {
    for op in ["&=", "^=", "+=", "-=", "*=", "/=", "%=", "<<=", ">>="] {
        let result = check_write(&format!("pll_sys_hw->fbdiv_int {op} 0xffffffff;"));
        assert!(result.findings.is_empty());
        assert_eq!(result.notes.len(), 1);
    }
}

#[test]
fn a_bare_base_address_macro_is_a_note() {
    let result = check_write("*(volatile uint32_t *)SIO_BASE = 1;");
    assert!(result.findings.is_empty());
    assert_eq!(result.notes[0].note, Note::PeripheralOnlyKnown { peripheral: "SIO".into() });
}

#[test]
fn findings_carry_their_place_and_expression() {
    let result = check_src(&rp2040_model(), "void f(void) {\n  sio_hw->nothing  =  1 + 1;\n}");
    let f = &result.findings[0];
    assert_eq!((f.file.as_str(), f.line), ("test.c", 2));
    assert_eq!((f.raw_lhs.as_str(), f.raw_op, f.raw_rhs.as_str()), ("sio_hw->nothing", "=", "1 + 1"));
    assert_eq!(f.severity, Severity::Error);
    assert_eq!(f.severity, f.kind.severity());
}

#[test]
fn checking_in_parts_is_checking_at_once() {
    let model = rp2040_model();
    let mut all = extract_accesses(CLOCK_BAD_ENUM, "a.c");
    let first = check(&model, &all);
    let second = check(&model, &extract_accesses(PLL_TOO_WIDE, "b.c"));
    all.append(&mut extract_accesses(PLL_TOO_WIDE, "b.c"));
    let both = check(&model, &all);
    assert_eq!(both.findings.len(), first.findings.len() + second.findings.len());
    assert_eq!(both.findings[0].kind, first.findings[0].kind);
    assert_eq!(both.findings[1].kind, second.findings[0].kind);
    assert_eq!(both.notes.len(), first.notes.len() + second.notes.len());
}

// ── SDK calls ────────────────────────────────────────────────────────────────

fn hal_check(model: &Model, src: &str) -> CheckResult {
    let calls = extract_hal_calls(src, "test.c");
    check_hal_calls(model, &calls)
}

fn check_call(call: &str) -> CheckResult {
    hal_check(&rp2040_model(), &format!("void f(uint n) {{ {call}; }}"))
}

#[test]
fn gpio_set_function_valid_funcsel_passes() {
    let model = rp2040_model();
    let result = hal_check(&model, "void f(void) { gpio_set_function(25, 5); }");
    assert!(result.findings.is_empty());
}

#[test]
fn gpio_set_function_invalid_funcsel_is_flagged() {
    let model = rp2040_model();
    let result = hal_check(&model, "void f(void) { gpio_set_function(25, 99); }");
    assert_eq!(result.findings.len(), 1);
    match &result.findings[0].kind {
        FindingKind::HalCallFuncselNotInEnum { pin, func, allowed } => {
            assert_eq!(*pin, 25);
            assert_eq!(*func, 99);
            assert_eq!(allowed.len(), 10);
        }
        other => panic!("expected HalCallFuncselNotInEnum, got {other:?}"),
    }
}

#[test]
fn gpio_init_pin_out_of_range_is_flagged() {
    let model = rp2040_model();
    let result = hal_check(&model, "void f(void) { gpio_init(30); }");
    assert_eq!(result.findings.len(), 1);
    match &result.findings[0].kind {
        FindingKind::HalCallPinOutOfRange { function, pin } => {
            assert_eq!(function, "gpio_init");
            assert_eq!(*pin, 30);
        }
        other => panic!("expected HalCallPinOutOfRange, got {other:?}"),
    }
}

#[test]
fn gpio_set_function_unknown_pin_produces_note_not_finding() {
    let model = rp2040_model();
    let result = hal_check(&model, "void f(uint pin) { gpio_set_function(pin, 5); }");
    assert!(result.findings.is_empty());
    assert!(result.notes.iter().any(|n| matches!(
        &n.note, Note::HalCallArgUnknown { function, arg_index }
            if function == "gpio_set_function" && *arg_index == 0
    )));
}

#[test]
fn gpio_set_function_macro_funcsel_is_resolved_and_checked() {
    let model = rp2040_model();
    let src = "#define GPIO_FUNC_NULL 31u\nvoid f(void) { gpio_set_function(0, GPIO_FUNC_NULL); }";
    let result = hal_check(&model, src);
    assert!(result.findings.is_empty(), "GPIO_FUNC_NULL=31 is valid: {:?}", result.findings);
}

#[test]
fn pins_from_0_to_29_exist() {
    for function in ["gpio_init", "gpio_put", "gpio_set_dir"] {
        assert!(check_call(&format!("{function}(0, 1)")).findings.is_empty());
        assert!(check_call(&format!("{function}(29, 1)")).findings.is_empty());
        assert_eq!(
            check_call(&format!("{function}(30, 1)")).findings[0].kind,
            FindingKind::HalCallPinOutOfRange { function: function.to_string(), pin: 30 }
        );
        assert_eq!(
            check_call(&format!("{function}(n, 1)")).notes[0].note,
            Note::HalCallArgUnknown { function: function.to_string(), arg_index: 0 }
        );
        assert!(check_call(&format!("{function}()")).findings.is_empty());
    }
    assert_eq!(check_call("gpio_set_function(30, 5)").findings[0].kind.rule_id(), "hal-call-pin-out-of-range");
}

#[test]
fn a_function_that_cannot_be_verified_is_noted() {
    // GPIO1's FUNCSEL has no enumeration here, and GPIO2 is not described at all.
    let result = check_call("gpio_set_function(1, 5)");
    assert!(result.findings.is_empty());
    assert_eq!(
        result.notes[0].note,
        Note::FieldUnverifiableNoEnum {
            peripheral: "IO_BANK0".into(),
            register: "GPIO1_CTRL".into(),
            field: "FUNCSEL".into(),
        }
    );
    let result = check_call("gpio_set_function(2, 5)");
    assert!(result.findings.is_empty() && result.notes.is_empty());
    let result = check_call("gpio_set_function(25, n)");
    assert_eq!(
        result.notes[0].note,
        Note::HalCallArgUnknown { function: "gpio_set_function".into(), arg_index: 1 }
    );
}

#[test]
fn instances_must_be_in_the_svd() {
    for (function, kind) in [("uart_init", "uart"), ("spi_init", "spi"), ("i2c_init", "i2c")] {
        assert!(check_call(&format!("{function}({kind}0, 1000)")).findings.is_empty());
        assert!(check_call(&format!("{function}({kind}1, 1000)")).findings.is_empty());
        let result = check_call(&format!("{function}({kind}2, 1000)"));
        assert_eq!(
            result.findings[0].kind,
            FindingKind::HalCallInstanceNotInSvd {
                function: function.to_string(),
                instance: format!("{kind}2"),
                peripheral: format!("{}2", kind.to_uppercase()),
            }
        );
        // A variable may hold any instance.
        let result = check_call(&format!("{function}(port, 1000)"));
        assert!(result.findings.is_empty());
        assert_eq!(
            result.notes[0].note,
            Note::HalCallArgUnknown { function: function.to_string(), arg_index: 0 }
        );
    }
}

#[test]
fn indexes_must_be_in_range() {
    assert!(check_call("pwm_set_wrap(7, 1000)").findings.is_empty());
    assert_eq!(
        check_call("pwm_set_wrap(8, 1000)").findings[0].kind,
        FindingKind::HalCallIndexOutOfRange {
            function: "pwm_set_wrap".into(),
            arg_index: 0,
            index: 8,
            evidence: IndexEvidence::NoSuchRegister { peripheral: "PWM".into(), register: "CH8_TOP".into() },
        }
    );
    assert!(check_call("pwm_set_chan_level(7, 1, 10)").findings.is_empty());
    assert_eq!(
        check_call("pwm_set_chan_level(7, 2, 10)").findings[0].kind,
        FindingKind::HalCallIndexOutOfRange {
            function: "pwm_set_chan_level".into(),
            arg_index: 1,
            index: 2,
            evidence: IndexEvidence::NoSuchPwmChannel,
        }
    );
    assert_eq!(check_call("pwm_set_chan_level(8, 2, 10)").findings.len(), 2);
    assert!(check_call("dma_channel_configure(11, 0)").findings.is_empty());
    assert_eq!(
        check_call("dma_channel_configure(12, 0)").findings[0].kind.title(),
        "dma_channel_configure — argument 0: index 12 is out of range"
    );
    assert!(check_call("adc_select_input(7)").findings.is_empty());
    let adc = check_call("adc_select_input(8)");
    assert_eq!(
        adc.findings[0].kind.citation(),
        Some("SVD: ADC.CS.AINSEL is 3 bits wide in the SVD (max 7)".to_string())
    );
    for call in ["pwm_set_wrap(n, 1)", "dma_channel_configure(n, 1)", "adc_select_input(n)"] {
        let result = check_call(call);
        assert!(result.findings.is_empty());
        assert_eq!(result.notes.len(), 1);
    }
}

#[test]
fn a_call_is_quoted_as_it_is_written() {
    let result = check_call("gpio_put(30,   n)");
    assert_eq!(result.findings[0].raw_lhs, "gpio_put(30, n)");
    assert_eq!(result.findings[0].raw_op, "");
    assert_eq!(result.findings[0].raw_rhs, "");
}

// ── Messages ─────────────────────────────────────────────────────────────────

fn texts(kind: FindingKind) -> (String, Option<String>, String) {
    (kind.title(), kind.citation(), kind.to_string())
}

fn two_values() -> Vec<EnumValue> {
    vec![EnumValue { name: "off".into(), value: 0 }, EnumValue { name: "on".into(), value: 3 }]
}

#[test]
fn findings_are_explained_in_words() {
    let (p, r, f) = ("P".to_string(), "R".to_string(), "F".to_string());
    assert_eq!(
        texts(FindingKind::NonexistentRegister { peripheral: p.clone(), register: r.clone() }),
        ("P.R — not a register in the SVD".into(), None, "P.R is not a register defined in the SVD for P".into())
    );
    assert_eq!(
        texts(FindingKind::AddressNotARegister { peripheral: p.clone(), address: 0x1f }),
        (
            "0x0000001f is inside P's block but matches no register".into(),
            None,
            "address 0x0000001f falls inside P's address block but matches no register's start address in the SVD"
                .into()
        )
    );
    assert_eq!(
        texts(FindingKind::ValueExceedsRegisterWidth {
            peripheral: p.clone(),
            register: r.clone(),
            value: 0x123,
            size_bits: 8,
        }),
        (
            "P.R — value 0x123 doesn't fit in 8 bits".into(),
            Some("SVD: P.R — 8-bit register (max 0xff)".into()),
            "value 0x123 written to P.R does not fit in its 8-bit width".into()
        )
    );
    assert_eq!(
        texts(FindingKind::ValueSetsUndefinedBits {
            peripheral: p.clone(),
            register: r.clone(),
            value: 5000,
            defined_mask: 0xfff,
        }),
        (
            "P.R — value 0x1388 sets bits outside all defined fields".into(),
            Some("SVD: P.R — defined bits: 0x00000fff".into()),
            "value 0x1388 written to P.R sets bits outside the fields the SVD defines for it (defined bits: 0xfff)"
                .into()
        )
    );
    assert_eq!(
        texts(FindingKind::FieldValueNotInEnum {
            peripheral: p.clone(),
            register: r.clone(),
            field: f.clone(),
            value: 2,
            allowed: two_values(),
        }),
        (
            "P.R.F — value 2 not in SVD enum".into(),
            Some("SVD: P.R.F\n     allowed: off=0, on=3".into()),
            "value 2 written to P.R.F is not one of the SVD's allowed values: off=0, on=3".into()
        )
    );
    assert_eq!(
        texts(FindingKind::WriteToReadOnlyRegister { peripheral: p.clone(), register: r.clone() }),
        (
            "P.R — read-only register written".into(),
            Some("SVD: P.R — access = read-only".into()),
            "P.R is read-only in the SVD, but firmware writes to it".into()
        )
    );
    assert_eq!(
        texts(FindingKind::WriteToReadOnlyField { peripheral: p, register: r, field: f }),
        (
            "P.R.F — read-only field written".into(),
            Some("SVD: P.R.F — access = read-only".into()),
            "P.R.F is read-only in the SVD, but firmware sets bits within it".into()
        )
    );
    assert_eq!(
        texts(FindingKind::HalCallPinOutOfRange { function: "gpio_init".into(), pin: 30 }),
        (
            "gpio_init(GPIO30) — pin doesn't exist (RP2040 has GPIO0..GPIO29)".into(),
            None,
            "gpio_init: pin 30 is out of range — the RP2040 has GPIO0..GPIO29".into()
        )
    );
    assert_eq!(
        texts(FindingKind::HalCallFuncselNotInEnum { pin: 25, func: 99, allowed: two_values() }),
        (
            "gpio_set_function(GPIO25, 99) — func not in SVD enum".into(),
            Some("SVD: IO_BANK0.GPIO25_CTRL.FUNCSEL\n     allowed: off=0, on=3".into()),
            "gpio_set_function: func value 99 is not a valid FUNCSEL for GPIO25 — SVD IO_BANK0.GPIO25_CTRL.FUNCSEL allows: off=0, on=3"
                .into()
        )
    );
    assert_eq!(
        texts(FindingKind::HalCallIndexOutOfRange {
            function: "pwm_set_wrap".into(),
            arg_index: 0,
            index: 8,
            evidence: IndexEvidence::NoSuchRegister { peripheral: "PWM".into(), register: "CH8_TOP".into() },
        }),
        (
            "pwm_set_wrap — argument 0: index 8 is out of range".into(),
            Some("SVD: PWM.CH8_TOP is not a register in the SVD".into()),
            "pwm_set_wrap: argument 0 has the index 8, which is out of range — PWM.CH8_TOP is not a register in the SVD"
                .into()
        )
    );
    assert_eq!(
        texts(FindingKind::HalCallInstanceNotInSvd {
            function: "uart_init".into(),
            instance: "uart2".into(),
            peripheral: "UART2".into(),
        }),
        (
            "uart_init(uart2) — no peripheral UART2 in the SVD".into(),
            None,
            "uart_init: instance uart2 does not exist — the SVD has no peripheral UART2".into()
        )
    );
}

#[test]
fn notes_are_explained_in_words() {
    let (p, r, f) = ("P".to_string(), "R".to_string(), "F".to_string());
    assert_eq!(Note::UnresolvedAccess.to_string(), "access target is not statically determinable");
    assert_eq!(
        Note::UnknownPeripheralGuess { peripheral: p.clone() }.to_string(),
        "no SVD peripheral named P; likely not a register access"
    );
    assert_eq!(
        Note::PeripheralOnlyKnown { peripheral: p.clone() }.to_string(),
        "peripheral P resolved, but no register name was determinable"
    );
    assert_eq!(
        Note::AddressNotMapped { address: 0x10 }.to_string(),
        "address 0x00000010 is not within any peripheral's address block"
    );
    assert_eq!(
        Note::FieldUnverifiableNoEnum { peripheral: p.clone(), register: r.clone(), field: f }.to_string(),
        "P.R.F has no enumerated values in the SVD; value membership is unverifiable"
    );
    assert_eq!(
        Note::RegisterHasNoFields { peripheral: p.clone(), register: r.clone() }.to_string(),
        "P.R has no fields defined in the SVD; bit-level checks skipped"
    );
    assert_eq!(
        Note::ValueNotDeterminableForOp { peripheral: p.clone(), register: r.clone() }.to_string(),
        "the resulting value written to P.R isn't statically determinable for this operator"
    );
    assert_eq!(
        Note::ValueNotStaticallyKnown { peripheral: p, register: r }.to_string(),
        "the value written to P.R isn't a compile-time constant — check skipped"
    );
    assert_eq!(
        Note::HalCallArgUnknown { function: "gpio_put".into(), arg_index: 1 }.to_string(),
        "gpio_put: argument 1 isn't a compile-time constant — check skipped"
    );
}

#[test]
fn long_lists_of_values_are_broken_into_lines() {
    let auxsrc: Vec<EnumValue> =
        AUXSRC.iter().map(|(name, value)| EnumValue { name: name.to_string(), value: *value }).collect();
    assert_eq!(
        fmt_enum_list(&auxsrc),
        "clksrc_pll_sys=0, clksrc_gpin0=1, clksrc_gpin1=2, clksrc_pll_usb=3,\n              \
         rosc_clksrc=4, xosc_clksrc=5, clk_sys=6, clk_usb=7, clk_adc=8, clk_rtc=9,\n              \
         clk_ref=10"
    );
    assert_eq!(fmt_enum_list(&[]), "");
}

// ── Reports ──────────────────────────────────────────────────────────────────

fn findings_for(src: &str) -> Vec<Finding> {
    let model = rp2040_model();
    let accesses = extract_accesses(src, "test.c");
    check(&model, &accesses).findings
}

#[test]
fn render_text_includes_severity_rule_and_title() {
    let findings = findings_for("void f(void) { clocks_hw->clk_gpout0_ctrl = 12u << 5; }");
    let text = render_text(&findings, &[], false, &SourceCache::new());
    assert!(text.contains("error"), "must contain severity");
    assert!(text.contains("field-value-not-in-enum"), "must show rule id");
    assert!(text.contains("AUXSRC"), "title must name the field");
    assert!(text.contains("allowed:"), "citation must list allowed values");
    assert!(text.contains("clksrc_pll_sys=0"), "citation must list the first AUXSRC value");
}

#[test]
fn render_text_no_color_has_no_escape_codes() {
    let findings = findings_for("void f(void) { clocks_hw->clk_gpout0_ctrl = 12u << 5; }");
    let text = render_text(&findings, &[], false, &SourceCache::new());
    assert!(!text.contains('\x1b'), "no ANSI escapes without color");
}

#[test]
fn render_text_color_has_escape_codes() {
    let findings = findings_for("void f(void) { clocks_hw->clk_gpout0_ctrl = 12u << 5; }");
    let text = render_text(&findings, &[], true, &SourceCache::new());
    assert!(text.contains('\x1b'), "must contain ANSI escapes with color=true");
}

#[test]
fn render_text_on_no_findings_says_no_findings() {
    let text = render_text(&[], &[], false, &SourceCache::new());
    assert!(text.contains("no findings"));
    assert_eq!(text, "\n  ✓ no findings \n\n");
}

#[test]
fn a_finding_is_rendered_with_its_source_line() {
    let source = "void f(void) {\n\tsio_hw->cpuid = 5; // no\n}\n";
    let mut cache = SourceCache::new();
    cache.add_file("test.c", source);
    let findings = findings_for(source);
    assert_eq!(
        render_text(&findings, &[], false, &cache),
        "  ⚠ warning   write-to-read-only-field\n \
         SIO.CPUID.CPUID — read-only field written\n\n  \
         ╭─ test.c · line 2\n  │\n  \
         │   2  │  \tsio_hw->cpuid = 5; // no\n  \
         │      │   ~~~~~~~~~~~~~~~~~\n  │\n  \
         ╰─ SVD: SIO.CPUID.CPUID — access = read-only\n\
         \n   ⚠ 1 warning \n\n"
    );
}

#[test]
fn a_finding_without_its_source_quotes_the_expression() {
    let findings = findings_for("void f(void) { sio_hw->nothing = 1; sio_hw->nothing2 = 1; }");
    let text = render_text(&findings, &[], false, &SourceCache::new());
    assert_eq!(
        text,
        format!(
            "  ✗ error   nonexistent-register\n SIO.NOTHING — not a register in the SVD\n\n  \
             ╭─ test.c · line 1\n  │\n  │   1  │      sio_hw->nothing = 1\n  \
             │      │      ^^^^^^^^^^^^^^^^^^^\n  ╰──\n\
             \n  {}\n\n  ✗ error   nonexistent-register\n SIO.NOTHING2 — not a register in the SVD\n\n  \
             ╭─ test.c · line 1\n  │\n  │   1  │      sio_hw->nothing2 = 1\n  \
             │      │      ^^^^^^^^^^^^^^^^^^^^\n  ╰──\n\
             \n   ✗ 2 errors \n\n",
            "─".repeat(60)
        )
    );
}

#[test]
fn colors_surround_the_expression() {
    let mut cache = SourceCache::new();
    cache.add_file("test.c", "void f(void) { sio_hw->nothing = 1; }");
    let findings = findings_for("void f(void) { sio_hw->nothing = 1; }");
    let text = render_text(&findings, &[], true, &cache);
    assert!(text.contains(" \x1b[7;31m ✗ error \x1b[0m  \x1b[2mnonexistent-register\x1b[0m\n"));
    assert!(text.contains("void f(void) { \x1b[1;31msio_hw->nothing = 1\x1b[0m; }\n"));
    assert!(text.ends_with("\n  \x1b[7;31m ✗ 1 error \x1b[0m\n\n"));
}

#[test]
fn notes_are_rendered_with_their_source_line() {
    let source = "void f(volatile uint32_t *reg) {\n  *reg = 5;\n}\n";
    let result = check_src(&rp2040_model(), source);
    let mut cache = SourceCache::new();
    assert_eq!(
        render_notes_text(&result.notes, false, &cache),
        "   ℹ notes \n\n  · access target is not statically determinable\n    test.c:2\n\n"
    );
    cache.add_file("test.c", source);
    assert_eq!(
        render_notes_text(&result.notes, false, &cache),
        "   ℹ notes \n\n  · access target is not statically determinable\n    test.c:2\n     2  │    *reg = 5;\n\n"
    );
    assert_eq!(render_notes_text(&[], true, &cache), "");
}

#[test]
fn render_sarif_has_matching_rule_and_result() {
    let findings = findings_for("void f(void) { clocks_hw->clk_gpout0_ctrl = 12u << 5; }");
    let sarif = render_sarif(&findings, &[]);
    assert_eq!(sarif["version"], "2.1.0");
    let rules = sarif["runs"][0]["tool"]["driver"]["rules"].as_array().unwrap();
    assert!(rules.iter().any(|r| r["id"] == "field-value-not-in-enum"));
    let results = sarif["runs"][0]["results"].as_array().unwrap();
    assert_eq!(results.len(), 1);
    assert_eq!(results[0]["ruleId"], "field-value-not-in-enum");
    assert_eq!(results[0]["level"], "error");
    assert_eq!(results[0]["locations"][0]["physicalLocation"]["region"]["startLine"], 1);
}

#[test]
fn render_sarif_maps_warning_severity() {
    let findings = findings_for("void f(void) { pll_sys_hw->fbdiv_int = 5000; }");
    assert_eq!(findings[0].kind.severity(), Severity::Warning);
    let sarif = render_sarif(&findings, &[]);
    assert_eq!(sarif["runs"][0]["results"][0]["level"], "warning");
}

#[test]
fn render_sarif_includes_notes_as_informational() {
    let model = rp2040_model();
    let accesses = extract_accesses("void f(void) { pll_sys_hw->fbdiv_int = 100; }", "test.c");
    let result = check(&model, &accesses);
    assert!(!result.notes.is_empty());
    let sarif = render_sarif(&result.findings, &result.notes);
    let results = sarif["runs"][0]["results"].as_array().unwrap();
    let note_results: Vec<_> = results.iter().filter(|r| r["level"] == "note").collect();
    assert!(!note_results.is_empty());
    assert_eq!(note_results[0]["kind"], "informational");
    let rules = sarif["runs"][0]["tool"]["driver"]["rules"].as_array().unwrap();
    assert!(rules.iter().any(|r| r["id"] == "note"));
}

#[test]
fn sarif_holds_every_finding_and_note() {
    let model = rp2040_model();
    let src = "void f(void) {\n  sio_hw->nothing = 1;\n  sio_hw->cpuid = 5;\n  clocks_hw->clk_gpout0_ctrl = 12u << 5;\n}";
    let result = check_src(&model, src);
    let sarif = render_sarif(&result.findings, &result.notes);
    let run = &sarif["runs"][0];
    assert_eq!(
        sarif["$schema"],
        "https://raw.githubusercontent.com/oasis-tcs/sarif-spec/master/Schemata/sarif-schema-2.1.0.json"
    );
    assert_eq!(run["tool"]["driver"]["name"], "silicon");
    assert_eq!(run["tool"]["driver"]["version"], "0.1.0");
    let rules: Vec<&str> =
        run["tool"]["driver"]["rules"].as_array().unwrap().iter().map(|r| r["id"].as_str().unwrap()).collect();
    assert_eq!(rules, vec!["field-value-not-in-enum", "nonexistent-register", "note", "write-to-read-only-field"]);
    let results = run["results"].as_array().unwrap();
    assert_eq!(results.len(), result.findings.len() + result.notes.len());
    for (f, r) in result.findings.iter().zip(results) {
        assert_eq!(r["ruleId"], f.kind.rule_id());
        assert_eq!(r["message"]["text"], f.kind.to_string());
        let place = &r["locations"][0]["physicalLocation"];
        assert_eq!(place["artifactLocation"]["uri"], "test.c");
        assert_eq!(place["region"]["startLine"], f.line as u64);
    }
    let last = results.last().unwrap();
    assert_eq!(last["ruleId"], "note");
    assert_eq!(last["message"]["text"], result.notes.last().unwrap().note.to_string());
}

// ── Projects ─────────────────────────────────────────────────────────────────

fn file(path: &str, source: &str) -> SourceFile {
    SourceFile { path: path.to_string(), source: source.to_string() }
}

fn options(format: Format, fail_on: FailOn) -> ReportOptions {
    ReportOptions { notes: false, format, fail_on, color: false, baseline: None }
}

fn run(files: Vec<SourceFile>, options: &ReportOptions) -> (String, bool) {
    let result = check_files(&rp2040_model(), &files);
    let conclusion = conclude(result, options, &SourceCache::new()).expect("must report");
    (conclusion.text, conclusion.failed)
}

#[test]
fn correct_firmware_exits_zero_with_zero_findings() {
    let (text, failed) = run(
        vec![file("clock.c", CLOCK_CORRECT), file("pll.c", PLL_CORRECT)],
        &options(Format::Text, FailOn::Error),
    );
    assert!(!failed);
    assert!(text.contains("no findings"));
}

#[test]
fn planted_bug_fails_with_a_cited_finding() {
    let (text, failed) =
        run(vec![file("clock_gpout_auxsrc_bad_enum.c", CLOCK_BAD_ENUM)], &options(Format::Text, FailOn::Error));
    assert!(failed);
    assert!(text.contains(" ✗ error   field-value-not-in-enum\n"));
    assert!(text.contains("CLOCKS.CLK_GPOUT0_CTRL.AUXSRC"));
    assert!(text.contains(" · line 14\n"));
}

#[test]
fn sarif_format_is_valid_json_with_a_result() {
    let (text, _) =
        run(vec![file("clock_gpout_auxsrc_bad_enum.c", CLOCK_BAD_ENUM)], &options(Format::Sarif, FailOn::Error));
    let json: serde_json::Value = serde_json::from_str(&text).expect("output must be valid JSON");
    assert_eq!(json["version"], "2.1.0");
    let results = json["runs"][0]["results"].as_array().unwrap();
    let error_results: Vec<_> = results.iter().filter(|r| r["level"] == "error").collect();
    assert_eq!(error_results.len(), 1, "expected exactly one error-level result");
}

#[test]
fn fail_on_none_always_exits_zero() {
    let files = vec![file("a.c", CLOCK_BAD_ENUM), file("b.c", PLL_TOO_WIDE)];
    assert!(!run(files, &options(Format::Text, FailOn::Never)).1);
}

#[test]
fn warning_only_finding_does_not_fail_default_error_threshold() {
    assert!(!run(vec![file("pll_fbdiv_too_wide.c", PLL_TOO_WIDE)], &options(Format::Text, FailOn::Error)).1);
}

#[test]
fn fail_on_warning_does_fail_on_warning_only_finding() {
    assert!(run(vec![file("pll_fbdiv_too_wide.c", PLL_TOO_WIDE)], &options(Format::Text, FailOn::Warning)).1);
}

#[test]
fn thresholds_are_ordered_by_severity() {
    let errors = findings_for("void f(void) { sio_hw->nothing = 1; }");
    let warnings = findings_for("void f(void) { sio_hw->cpuid = 1; }");
    assert!(should_fail(&errors, FailOn::Error) && should_fail(&errors, FailOn::Warning));
    assert!(!should_fail(&warnings, FailOn::Error) && should_fail(&warnings, FailOn::Warning));
    assert!(!should_fail(&errors, FailOn::Never));
    assert!(!should_fail(&[], FailOn::Error) && !should_fail(&[], FailOn::Warning));
}

#[test]
fn findings_are_sorted_by_file_and_line() {
    let call = "void f(void) {\n  gpio_init(30);\n  sio_hw->nothing = 1; gpio_init(31);\n}";
    let files = vec![file("src/b.c", call), file("src/a/z.c", call), file("src.c", call)];
    let result = check_files(&rp2040_model(), &files);
    let places: Vec<(&str, usize, &str)> =
        result.findings.iter().map(|f| (f.file.as_str(), f.line, f.kind.rule_id())).collect();
    let mut expected = vec![];
    for path in ["src/a/z.c", "src/b.c", "src.c"] {
        expected.push((path, 2, "hal-call-pin-out-of-range"));
        expected.push((path, 3, "nonexistent-register"));
        expected.push((path, 3, "hal-call-pin-out-of-range"));
    }
    assert_eq!(places, expected);
}

#[test]
fn paths_are_ordered_as_the_standard_library_orders_them() {
    let paths = [
        "a", "a/b", "a/b/c", "ab", "a.c", "./a", "../a", "/a", "a//b", "a/./b", "b", "", ".", "..", "/", "A", "é", "a/b/",
        "./", "a/../b", ".a", "/./a",
    ];
    for x in paths {
        for y in paths {
            assert_eq!(
                silicon::path_order::path_is_before(x, y),
                std::path::Path::new(x) < std::path::Path::new(y),
                "{x} and {y}"
            );
            assert_eq!(silicon::path_order::text_is_before(x, y), x < y);
        }
    }
}

#[test]
fn macros_of_one_file_are_known_in_the_others() {
    let files = vec![
        file("main.c", "void f(void) { gpio_init(LED_PIN); }"),
        file("pins.h", "#define LED_PIN 31\n"),
    ];
    let result = check_files(&rp2040_model(), &files);
    assert_eq!(
        result.findings[0].kind,
        FindingKind::HalCallPinOutOfRange { function: "gpio_init".into(), pin: 31 }
    );
}

#[test]
fn both_kinds_of_findings_are_merged() {
    let model = rp2040_model();
    let src = "void f(void) {\n  gpio_init(30);\n  sio_hw->nothing = 1;\n}";
    let result = check_all(&model, &extract_accesses(src, "a.c"), &extract_hal_calls(src, "a.c"));
    let lines: Vec<usize> = result.findings.iter().map(|f| f.line).collect();
    assert_eq!(lines, vec![2, 3]);
}

#[test]
fn notes_are_reported_only_if_asked_for() {
    let mut options = options(Format::Text, FailOn::Error);
    let (without, _) = run(vec![file("pll.c", PLL_CORRECT)], &options);
    options.notes = true;
    let (with, _) = run(vec![file("pll.c", PLL_CORRECT)], &options);
    assert!(!without.contains("notes"));
    assert!(with.starts_with(&without));
    assert!(with.contains("ℹ notes"));
}

#[test]
fn a_baseline_suppresses_what_it_holds() {
    let files = || vec![file("clock.c", CLOCK_BAD_ENUM), file("pll.c", PLL_TOO_WIDE)];
    let model = rp2040_model();
    let entries = baseline_of(&check_files(&model, &files()).findings);
    assert_eq!(
        entries,
        vec![
            BaselineEntry { file: "clock.c".into(), line: 14, rule_id: "field-value-not-in-enum".into() },
            BaselineEntry { file: "pll.c".into(), line: 16, rule_id: "value-sets-undefined-bits".into() },
        ]
    );
    let mut options = options(Format::Text, FailOn::Warning);
    options.baseline = Some(entries);
    let conclusion = conclude(check_files(&model, &files()), &options, &SourceCache::new()).unwrap();
    assert_eq!(conclusion.suppressed, 2);
    assert!(!conclusion.failed);
    assert!(conclusion.text.contains("no findings"));

    // A new finding is reported.
    let mut more = files();
    more.push(file("new.c", "void f(void) { gpio_init(30); }"));
    let conclusion = conclude(check_files(&model, &more), &options, &SourceCache::new()).unwrap();
    assert_eq!(conclusion.suppressed, 2);
    assert!(conclusion.failed);
    assert!(conclusion.text.contains("gpio_init(GPIO30)"));
}

#[test]
fn writing_a_baseline_takes_all_findings_and_reports_nothing() {
    let model = rp2040_model();
    let files = [file("clock.c", CLOCK_BAD_ENUM), file("pll.c", PLL_TOO_WIDE)];
    let known = baseline_of(&check_files(&model, &files).findings);
    let mut options = options(Format::Text, FailOn::Warning);
    options.baseline = Some(known);
    match finish(check_files(&model, &files), &options, Some("b.json"), &SourceCache::new()).unwrap() {
        Outcome::WriteBaseline { entries, message } => {
            assert_eq!(entries.len(), 2);
            assert_eq!(message, "silicon: wrote 2 findings to baseline b.json");
        }
        other => panic!("expected WriteBaseline, got {other:?}"),
    }
    match finish(check_files(&model, &files), &options, None, &SourceCache::new()).unwrap() {
        Outcome::Report(conclusion) => assert_eq!(conclusion.suppressed, 2),
        other => panic!("expected Report, got {other:?}"),
    }
}

#[test]
fn the_order_of_the_files_changes_no_report() {
    let make = || vec![file("b.c", CLOCK_BAD_ENUM), file("a.c", PLL_TOO_WIDE), file("c.h", "#define X 1\n")];
    let mut reversed = make();
    reversed.reverse();
    let mut options = options(Format::Text, FailOn::Error);
    options.notes = true;
    assert_eq!(run(make(), &options), run(reversed, &options));
}

#[test]
fn color_adds_nothing_but_escape_codes() {
    let src = "void f(void) { sio_hw->nothing = 1; clocks_hw->clk_gpout0_ctrl = 12u << 5; }";
    let findings = findings_for(src);
    // A source line with an escape code counts only where it is quoted.
    let mut cache = SourceCache::new();
    cache.add_file("test.c", &format!("{src}\n// \x1b[1m\n"));
    cache.add_file("other.c", "// \x1b[1m\n");
    let plain = render_text(&findings, &[], false, &cache);
    let colored = render_text(&findings, &[], true, &cache);
    assert!(!plain.contains('\x1b') && plain.contains("sio_hw->nothing = 1"));
    let mut stripped = String::new();
    let mut in_code = false;
    for c in colored.chars() {
        if c == '\x1b' {
            in_code = true;
        } else if in_code {
            in_code = c != 'm';
        } else {
            stripped.push(c);
        }
    }
    assert_eq!(stripped, plain);
}

#[test]
fn a_commented_argument_is_checked() {
    assert!(check_call("pwm_set_chan_level(/* slice */ 7, 0, 100)").findings.is_empty());
    assert_eq!(check_call("gpio_init(/* led */ 30)").findings[0].kind.rule_id(), "hal-call-pin-out-of-range");
}

#[test]
fn a_baseline_entry_needs_file_line_and_rule() {
    let findings = || findings_for("void f(void) { sio_hw->nothing = 1; }");
    let entry = |file: &str, line: usize, rule: &str| BaselineEntry { file: file.into(), line, rule_id: rule.into() };
    assert_eq!(suppress_baselined(findings(), &[]).len(), 1);
    assert_eq!(suppress_baselined(findings(), &vec![entry("test.c", 1, "nonexistent-register")]).len(), 0);
    assert_eq!(suppress_baselined(findings(), &vec![entry("other.c", 1, "nonexistent-register")]).len(), 1);
    assert_eq!(suppress_baselined(findings(), &vec![entry("test.c", 2, "nonexistent-register")]).len(), 1);
    assert_eq!(suppress_baselined(findings(), &vec![entry("test.c", 1, "note")]).len(), 1);
}

#[test]
fn suppressing_keeps_the_order() {
    let src = "void f(void) {\n  sio_hw->a = 1;\n  sio_hw->b = 1;\n  sio_hw->c = 1;\n}";
    let baseline = vec![BaselineEntry { file: "test.c".into(), line: 3, rule_id: "nonexistent-register".into() }];
    let left = suppress_baselined(findings_for(src), &baseline);
    let lines: Vec<usize> = left.iter().map(|f| f.line).collect();
    assert_eq!(lines, vec![2, 4]);
}

// ── Listings ─────────────────────────────────────────────────────────────────

#[test]
fn peripherals_are_listed_by_name() {
    let text = list_peripherals(&rp2040_model(), false);
    let lines: Vec<&str> = text.lines().collect();
    assert_eq!(lines[1], " PERIPHERAL              BASE            REGISTERS");
    assert_eq!(lines[2], format!(" {}", "─".repeat(46)));
    assert_eq!(lines[3], " ADC                     0x4004c000          1");
    assert_eq!(lines[5], " DMA                     0x50000000         12");
    assert_eq!(lines.last().unwrap(), &"");
    let names: Vec<&str> = lines[3..lines.len() - 1].iter().map(|l| l.split_whitespace().next().unwrap()).collect();
    let mut sorted = names.clone();
    sorted.sort();
    assert_eq!(names, sorted);
    assert_eq!(names.len(), 13);
    assert!(list_peripherals(&rp2040_model(), true).contains(" \x1b[36mADC                   \x1b[0m  0x4004c000"));
}

#[test]
fn registers_are_listed_by_offset() {
    let text = list_registers(&rp2040_model(), "sio", false).expect("SIO exists");
    assert_eq!(
        text,
        format!(
            "\n SIO registers  (base 0xd0000000)\n\n \
             REGISTER                              OFFSET   BITS   ACCESS      FIELDS\n {}\n \
             CPUID                               0x000000     32   readwrite   1\n \
             GPIO_IN                             0x000004     32   readonly    1\n \
             GPIO_OUT                            0x000010     32   readwrite   1\n \
             GPIO_OE                             0x000020     32   readwrite   1\n \
             SPARE                               0x000030     16   readwrite   0\n\n",
            "─".repeat(72)
        )
    );
    let error = list_registers(&rp2040_model(), "sii", false).expect_err("no such peripheral");
    assert_eq!(
        error,
        "silicon: no peripheral 'SII' in SVD\navailable: ADC, CLOCKS, DMA, I2C0, I2C1, IO_BANK0, PLL_SYS, PWM, SIO, \
         SPI0, SPI1, UART0, UART1\n"
    );
}

#[test]
fn fields_are_listed_from_the_lowest_bit_on() {
    let text = list_fields(&rp2040_model(), "clocks", "clk_gpout0_ctrl", false).expect("the register exists");
    assert_eq!(
        text,
        format!(
            "\n CLOCKS.CLK_GPOUT0_CTRL  (offset 0x000, 32-bit, readwrite)\n\n \
             FIELD                         BITS   ACCESS      ALLOWED VALUES\n {}\n \
             AUXSRC                       [8:5]   rw          clksrc_pll_sys=0, clksrc_gpin0=1 … (11 values)\n \
             KILL                          [10]   rw          (no SVD enum)\n \
             ENABLE                        [11]   rw          (no SVD enum)\n \
             PHASE                      [17:16]   rw          (no SVD enum)\n \
             NUDGE                         [20]   rw          (no SVD enum)\n\n",
            "─".repeat(72)
        )
    );
    assert_eq!(
        list_fields(&rp2040_model(), "SIO", "SPARE", false),
        Ok("\n SIO.SPARE  (offset 0x030, 16-bit, readwrite)\n\n  (no fields defined in SVD)\n\n".to_string())
    );
    assert_eq!(
        list_fields(&rp2040_model(), "sii", "x", false),
        Err("silicon: no peripheral 'SII' in SVD\n".to_string())
    );
    assert_eq!(
        list_fields(&rp2040_model(), "sio", "x", false),
        Err("silicon: no register 'X' in peripheral 'SIO'\n".to_string())
    );
}

#[test]
fn listings_answer_their_commands() {
    let model = rp2040_model();
    assert_eq!(
        answer_from_svd(&Command::ListPeripherals, &model, false),
        Some(Ok(list_peripherals(&model, false)))
    );
    assert_eq!(
        answer_from_svd(&Command::ListRegisters { peripheral: "pwm".to_string() }, &model, true),
        Some(list_registers(&model, "PWM", true))
    );
    let command = Command::ListFields { peripheral: "ADC".to_string(), register: "CS".to_string() };
    assert_eq!(answer_from_svd(&command, &model, false), Some(list_fields(&model, "ADC", "CS", false)));
    assert_eq!(answer_from_svd(&Command::Check, &model, false), None);
    assert_eq!(answer_from_svd(&Command::InstallHook, &model, false), None);
}
