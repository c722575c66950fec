//! What each rule checks, in words and examples.

use vstd::prelude::*;

use crate::finding::FindingKindView;
use crate::text;

verus! {

broadcast use crate::text::group_views;

/// What a rule checks, the SVD fact behind it, and a line of C that breaks it and one
/// that does not.
pub struct Explanation {
    pub rule_id: &'static str,
    pub what: &'static str,
    pub svd_fact: &'static str,
    pub bad_example: &'static str,
    pub ok_example: &'static str,
}

pub struct ExplanationView {
    pub rule_id: Seq<char>,
    pub what: Seq<char>,
    pub svd_fact: Seq<char>,
    pub bad_example: Seq<char>,
    pub ok_example: Seq<char>,
}

impl View for Explanation {
    type V = ExplanationView;

    open spec fn view(&self) -> ExplanationView {
        ExplanationView {
            rule_id: self.rule_id@,
            what: self.what@,
            svd_fact: self.svd_fact@,
            bad_example: self.bad_example@,
            ok_example: self.ok_example@,
        }
    }
}

/// The rules that can be explained.
pub open spec fn known_rules() -> Seq<Seq<char>> {
    seq![
        "field-value-not-in-enum"@,
        "nonexistent-register"@,
        "address-not-a-register"@,
        "value-exceeds-register-width"@,
        "value-sets-undefined-bits"@,
        "write-to-read-only-register"@,
        "write-to-read-only-field"@,
        "hal-call-pin-out-of-range"@,
        "hal-call-funcsel-not-in-enum"@,
        "hal-call-index-out-of-range"@,
        "hal-call-instance-not-in-svd"@,
    ]
}

/// The explanation of a rule.
pub open spec fn explanation(rule_id: Seq<char>) -> Option<ExplanationView> {
    if rule_id == "field-value-not-in-enum"@ {
        Some(
            ExplanationView {
                rule_id: "field-value-not-in-enum"@,
                what: "A value written to a bitfield is not one of the allowed values listed in the SVD's <enumeratedValues> for that field."@,
                svd_fact: "Only checked when the SVD defines <enumeratedValues> for the field. If the SVD has no enum, the value is unverifiable and silicon emits a note instead (invariant 6)."@,
                bad_example: "// AUXSRC = 12 — not in SVD enum {0..10}\nclocks_hw->clk_gpout0_ctrl = 12u << 5;"@,
                ok_example: "// AUXSRC = 0 (clksrc_pll_sys) — valid per SVD\nclocks_hw->clk_gpout0_ctrl = 0u << 5;"@,
            },
        )
    } else if rule_id == "nonexistent-register"@ {
        Some(
            ExplanationView {
                rule_id: "nonexistent-register"@,
                what: "The register name doesn't appear in the SVD for the given peripheral. Usually a mistyped name or wrong peripheral struct."@,
                svd_fact: "Checked against the exhaustive register list the SVD defines for each peripheral."@,
                bad_example: "sio_hw->not_a_real_register = 1;  // no such register in SIO"@,
                ok_example: "sio_hw->gpio_out = 1u << 25;       // GPIO_OUT exists in SVD"@,
            },
        )
    } else if rule_id == "address-not-a-register"@ {
        Some(
            ExplanationView {
                rule_id: "address-not-a-register"@,
                what: "A literal address falls inside a peripheral's address block but doesn't align with any defined register's start address."@,
                svd_fact: "Resolved via the SVD address map: peripheral base + register offset. Off-by-one errors in offset arithmetic commonly trigger this."@,
                bad_example: "// SIO base is 0xd0000000; offset 0x1 is not a register boundary\n*(volatile uint32_t *)(0xd0000001u) = 1;"@,
                ok_example: "// GPIO_OUT is at SIO base + 0x010\n*(volatile uint32_t *)(0xd0000010u) = 1u << 25;"@,
            },
        )
    } else if rule_id == "value-exceeds-register-width"@ {
        Some(
            ExplanationView {
                rule_id: "value-exceeds-register-width"@,
                what: "The value written is too large to fit in the register's declared bit width."@,
                svd_fact: "Checked against the SVD <size> element for the register (typically 32 bits, but some peripherals define narrower registers)."@,
                bad_example: "// FBDIV_INT is 12 bits wide; 5000 > 4095\npll_sys_hw->fbdiv_int = 5000;"@,
                ok_example: "// 125 fits in 12 bits\npll_sys_hw->fbdiv_int = 125;"@,
            },
        )
    } else if rule_id == "value-sets-undefined-bits"@ {
        Some(
            ExplanationView {
                rule_id: "value-sets-undefined-bits"@,
                what: "The value has 1-bits outside all defined fields — reserved or undocumented bits that the SVD doesn't assign to any field."@,
                svd_fact: "The defined-bit mask is OR'd from all field masks for the register. value & ~defined_mask != 0 triggers this warning."@,
                bad_example: "// Bit 31 is not assigned to any field in PLL_SYS.FBDIV_INT\npll_sys_hw->fbdiv_int = 0x80000064u;"@,
                ok_example: "// Only the FBDIV_INT field bits (0..11) are set\npll_sys_hw->fbdiv_int = 100;"@,
            },
        )
    } else if rule_id == "write-to-read-only-register"@ {
        Some(
            ExplanationView {
                rule_id: "write-to-read-only-register"@,
                what: "The SVD marks the entire register as read-only, but firmware writes to it."@,
                svd_fact: "Checked against the SVD <access>read-only</access> annotation on the register element."@,
                bad_example: "sio_hw->cpuid = 5;  // CPUID is read-only in the SVD"@,
                ok_example: "uint32_t id = sio_hw->cpuid;  // read is fine"@,
            },
        )
    } else if rule_id == "write-to-read-only-field"@ {
        Some(
            ExplanationView {
                rule_id: "write-to-read-only-field"@,
                what: "A specific field is read-only in the SVD, and the write sets bits within that field."@,
                svd_fact: "Checked against <access>read-only</access> on the field element. The field's bit mask is used to detect which bits the write touches."@,
                bad_example: "// CPUID field is read-only\nsio_hw->cpuid = 5;"@,
                ok_example: "// Write only to writable fields"@,
            },
        )
    } else if rule_id == "hal-call-pin-out-of-range"@ {
        Some(
            ExplanationView {
                rule_id: "hal-call-pin-out-of-range"@,
                what: "A gpio_* HAL call passes a pin number outside the RP2040's GPIO range (GPIO0–GPIO29)."@,
                svd_fact: "Grounded in the SVD: GPIO30 and above have no IO_BANK0 register entry. The RP2040 has exactly 30 GPIOs."@,
                bad_example: "gpio_init(30);   // GPIO30 doesn't exist on RP2040"@,
                ok_example: "gpio_init(25);   // GPIO25 = onboard LED on Pico"@,
            },
        )
    } else if rule_id == "hal-call-funcsel-not-in-enum"@ {
        Some(
            ExplanationView {
                rule_id: "hal-call-funcsel-not-in-enum"@,
                what: "gpio_set_function is called with a function selector value not in the SVD's FUNCSEL enum for that pin."@,
                svd_fact: "Checked against IO_BANK0.GPIO{pin}_CTRL.FUNCSEL's <enumeratedValues> in the SVD."@,
                bad_example: "gpio_set_function(25, 99);  // 99 is not a valid FUNCSEL"@,
                ok_example: "gpio_set_function(25, 5);   // 5 = SIO function, valid per SVD"@,
            },
        )
    } else if rule_id == "hal-call-index-out-of-range"@ {
        Some(
            ExplanationView {
                rule_id: "hal-call-index-out-of-range"@,
                what: "A PWM slice, DMA channel, or ADC channel index doesn't correspond to a peripheral instance defined in the SVD."@,
                svd_fact: "PWM: slice validated via CH{n}_TOP register existence (slices 0–7). DMA: channel via CH{n}_CTRL_TRIG (channels 0–11). ADC: channel vs AINSEL field bit width (3 bits → max 7)."@,
                bad_example: "pwm_set_wrap(8, 1000);          // only slices 0-7 exist\ndma_channel_configure(12, ...); // only channels 0-11 exist"@,
                ok_example: "pwm_set_wrap(7, 1000);          // slice 7 — last valid slice\ndma_channel_configure(0, ...);  // channel 0 is valid"@,
            },
        )
    } else if rule_id == "hal-call-instance-not-in-svd"@ {
        Some(
            ExplanationView {
                rule_id: "hal-call-instance-not-in-svd"@,
                what: "A UART, SPI, or I2C HAL call's instance argument doesn't match any peripheral in the SVD. The RP2040 has uart0/uart1, spi0/spi1, i2c0/i2c1."@,
                svd_fact: "The instance name is mapped to a SVD peripheral (uart0 → UART0) and checked with model.peripheral(). If absent, no such instance exists."@,
                bad_example: "uart_init(uart2, 115200);  // RP2040 only has uart0 and uart1"@,
                ok_example: "uart_init(uart1, 115200);  // uart1 exists in SVD"@,
            },
        )
    } else {
        None
    }
}

/// The explanation of a rule, if there is a rule of that name.
pub fn find_explanation(rule_id: &str) -> (r: Option<Explanation>)
    ensures
        match r {
            Some(e) => explanation(rule_id@) == Some(e@),
            None => explanation(rule_id@) is None,
        },
{
    if text::same_text(rule_id, "field-value-not-in-enum") {
        Some(
            Explanation {
                rule_id: "field-value-not-in-enum",
                what: "A value written to a bitfield is not one of the allowed values listed in the SVD's <enumeratedValues> for that field.",
                svd_fact: "Only checked when the SVD defines <enumeratedValues> for the field. If the SVD has no enum, the value is unverifiable and silicon emits a note instead (invariant 6).",
                bad_example: "// AUXSRC = 12 — not in SVD enum {0..10}\nclocks_hw->clk_gpout0_ctrl = 12u << 5;",
                ok_example: "// AUXSRC = 0 (clksrc_pll_sys) — valid per SVD\nclocks_hw->clk_gpout0_ctrl = 0u << 5;",
            },
        )
    } else if text::same_text(rule_id, "nonexistent-register") {
        Some(
            Explanation {
                rule_id: "nonexistent-register",
                what: "The register name doesn't appear in the SVD for the given peripheral. Usually a mistyped name or wrong peripheral struct.",
                svd_fact: "Checked against the exhaustive register list the SVD defines for each peripheral.",
                bad_example: "sio_hw->not_a_real_register = 1;  // no such register in SIO",
                ok_example: "sio_hw->gpio_out = 1u << 25;       // GPIO_OUT exists in SVD",
            },
        )
    } else if text::same_text(rule_id, "address-not-a-register") {
        Some(
            Explanation {
                rule_id: "address-not-a-register",
                what: "A literal address falls inside a peripheral's address block but doesn't align with any defined register's start address.",
                svd_fact: "Resolved via the SVD address map: peripheral base + register offset. Off-by-one errors in offset arithmetic commonly trigger this.",
                bad_example: "// SIO base is 0xd0000000; offset 0x1 is not a register boundary\n*(volatile uint32_t *)(0xd0000001u) = 1;",
                ok_example: "// GPIO_OUT is at SIO base + 0x010\n*(volatile uint32_t *)(0xd0000010u) = 1u << 25;",
            },
        )
    } else if text::same_text(rule_id, "value-exceeds-register-width") {
        Some(
            Explanation {
                rule_id: "value-exceeds-register-width",
                what: "The value written is too large to fit in the register's declared bit width.",
                svd_fact: "Checked against the SVD <size> element for the register (typically 32 bits, but some peripherals define narrower registers).",
                bad_example: "// FBDIV_INT is 12 bits wide; 5000 > 4095\npll_sys_hw->fbdiv_int = 5000;",
                ok_example: "// 125 fits in 12 bits\npll_sys_hw->fbdiv_int = 125;",
            },
        )
    } else if text::same_text(rule_id, "value-sets-undefined-bits") {
        Some(
            Explanation {
                rule_id: "value-sets-undefined-bits",
                what: "The value has 1-bits outside all defined fields — reserved or undocumented bits that the SVD doesn't assign to any field.",
                svd_fact: "The defined-bit mask is OR'd from all field masks for the register. value & ~defined_mask != 0 triggers this warning.",
                bad_example: "// Bit 31 is not assigned to any field in PLL_SYS.FBDIV_INT\npll_sys_hw->fbdiv_int = 0x80000064u;",
                ok_example: "// Only the FBDIV_INT field bits (0..11) are set\npll_sys_hw->fbdiv_int = 100;",
            },
        )
    } else if text::same_text(rule_id, "write-to-read-only-register") {
        Some(
            Explanation {
                rule_id: "write-to-read-only-register",
                what: "The SVD marks the entire register as read-only, but firmware writes to it.",
                svd_fact: "Checked against the SVD <access>read-only</access> annotation on the register element.",
                bad_example: "sio_hw->cpuid = 5;  // CPUID is read-only in the SVD",
                ok_example: "uint32_t id = sio_hw->cpuid;  // read is fine",
            },
        )
    } else if text::same_text(rule_id, "write-to-read-only-field") {
        Some(
            Explanation {
                rule_id: "write-to-read-only-field",
                what: "A specific field is read-only in the SVD, and the write sets bits within that field.",
                svd_fact: "Checked against <access>read-only</access> on the field element. The field's bit mask is used to detect which bits the write touches.",
                bad_example: "// CPUID field is read-only\nsio_hw->cpuid = 5;",
                ok_example: "// Write only to writable fields",
            },
        )
    } else if text::same_text(rule_id, "hal-call-pin-out-of-range") {
        Some(
            Explanation {
                rule_id: "hal-call-pin-out-of-range",
                what: "A gpio_* HAL call passes a pin number outside the RP2040's GPIO range (GPIO0–GPIO29).",
                svd_fact: "Grounded in the SVD: GPIO30 and above have no IO_BANK0 register entry. The RP2040 has exactly 30 GPIOs.",
                bad_example: "gpio_init(30);   // GPIO30 doesn't exist on RP2040",
                ok_example: "gpio_init(25);   // GPIO25 = onboard LED on Pico",
            },
        )
    } else if text::same_text(rule_id, "hal-call-funcsel-not-in-enum") {
        Some(
            Explanation {
                rule_id: "hal-call-funcsel-not-in-enum",
                what: "gpio_set_function is called with a function selector value not in the SVD's FUNCSEL enum for that pin.",
                svd_fact: "Checked against IO_BANK0.GPIO{pin}_CTRL.FUNCSEL's <enumeratedValues> in the SVD.",
                bad_example: "gpio_set_function(25, 99);  // 99 is not a valid FUNCSEL",
                ok_example: "gpio_set_function(25, 5);   // 5 = SIO function, valid per SVD",
            },
        )
    } else if text::same_text(rule_id, "hal-call-index-out-of-range") {
        Some(
            Explanation {
                rule_id: "hal-call-index-out-of-range",
                what: "A PWM slice, DMA channel, or ADC channel index doesn't correspond to a peripheral instance defined in the SVD.",
                svd_fact: "PWM: slice validated via CH{n}_TOP register existence (slices 0–7). DMA: channel via CH{n}_CTRL_TRIG (channels 0–11). ADC: channel vs AINSEL field bit width (3 bits → max 7).",
                bad_example: "pwm_set_wrap(8, 1000);          // only slices 0-7 exist\ndma_channel_configure(12, ...); // only channels 0-11 exist",
                ok_example: "pwm_set_wrap(7, 1000);          // slice 7 — last valid slice\ndma_channel_configure(0, ...);  // channel 0 is valid",
            },
        )
    } else if text::same_text(rule_id, "hal-call-instance-not-in-svd") {
        Some(
            Explanation {
                rule_id: "hal-call-instance-not-in-svd",
                what: "A UART, SPI, or I2C HAL call's instance argument doesn't match any peripheral in the SVD. The RP2040 has uart0/uart1, spi0/spi1, i2c0/i2c1.",
                svd_fact: "The instance name is mapped to a SVD peripheral (uart0 → UART0) and checked with model.peripheral(). If absent, no such instance exists.",
                bad_example: "uart_init(uart2, 115200);  // RP2040 only has uart0 and uart1",
                ok_example: "uart_init(uart1, 115200);  // uart1 exists in SVD",
            },
        )
    } else {
        None
    }
}

fn known_rule_names() -> (r: Vec<String>)
    ensures
        text::views(r@) == known_rules(),
{
    let mut out: Vec<String> = Vec::new();
    out.push("field-value-not-in-enum".to_owned());
    out.push("nonexistent-register".to_owned());
    out.push("address-not-a-register".to_owned());
    out.push("value-exceeds-register-width".to_owned());
    out.push("value-sets-undefined-bits".to_owned());
    out.push("write-to-read-only-register".to_owned());
    out.push("write-to-read-only-field".to_owned());
    out.push("hal-call-pin-out-of-range".to_owned());
    out.push("hal-call-funcsel-not-in-enum".to_owned());
    out.push("hal-call-index-out-of-range".to_owned());
    out.push("hal-call-instance-not-in-svd".to_owned());
    assert(text::views(out@) =~= known_rules());
    out
}

// ── Wrapping ─────────────────────────────────────────────────────────────────

/// Words on lines of at most `width` bytes: the full lines, and the one that is being
/// filled. A word that is longer has a line of its own.
pub open spec fn filled(words: Seq<Seq<char>>, width: nat) -> (Seq<Seq<char>>, Seq<char>)
    decreases words.len(),
{
    if words.len() == 0 {
        (Seq::empty(), Seq::empty())
    } else {
        let (lines, current) = filled(words.drop_last(), width);
        let word = words.last();
        if current.len() == 0 {
            (lines, word)
        } else if text::byte_len(current) + 1 + text::byte_len(word) <= width {
            (lines, current + " "@ + word)
        } else {
            (lines.push(current), word)
        }
    }
}

/// The words of a text on lines of at most `width` bytes.
pub open spec fn wrapped(s: Seq<char>, width: nat) -> Seq<Seq<char>> {
    let (lines, current) = filled(text::words(s), width);
    if current.len() == 0 {
        lines
    } else {
        lines.push(current)
    }
}

/// Wraps the words of `text` to lines of at most `max_width` bytes.
pub fn wrap_text(text: &str, max_width: usize) -> (r: Vec<String>)
    ensures
        text::views(r@) == wrapped(text@, max_width as nat),
{
    let words = text::words_text(text);
    let ghost all = text::words(text@);
    let mut lines: Vec<String> = Vec::new();
    let mut current = String::new();
    let mut i: usize = 0;
    assert(all.take(0).len() == 0);
    assert(current@ =~= Seq::<char>::empty());
    while i < words.len()
        invariant
            i <= words@.len(),
            all == text::views(words@),
            (text::views(lines@), current@) == filled(all.take(i as int), max_width as nat),
        decreases words.len() - i,
    {
        assert(all.take(i + 1).drop_last() =~= all.take(i as int));
        assert(all.take(i + 1).last() == words@[i as int]@);
        let word = words[i].as_str();
        let used: usize = text::byte_len_of(current.as_str());
        let needed: usize = text::byte_len_of(word);
        if current.as_str().unicode_len() == 0 {
            current = word.to_owned();
        } else if used < max_width && needed <= max_width - used - 1 {
            current.append(" ");
            current.append(word);
        } else {
            lines.push(current);
            current = word.to_owned();
        }
        i += 1;
    }
    assert(all.take(all.len() as int) =~= all);
    if current.as_str().unicode_len() > 0 {
        lines.push(current);
    }
    lines
}

// ── The text of an explanation ───────────────────────────────────────────────

/// Indented lines, each between two colour codes.
pub open spec fn block(lines: Seq<Seq<char>>, open: Seq<char>, close: Seq<char>) -> Seq<char>
    decreases lines.len(),
{
    if lines.len() == 0 {
        Seq::empty()
    } else {
        block(lines.drop_last(), open, close) + "   "@ + open + lines.last() + close + "\n"@
    }
}

/// A colour code, where there is colour.
pub open spec fn code(color: bool, escape: Seq<char>) -> Seq<char> {
    if color {
        escape
    } else {
        ""@
    }
}

/// A headline and the lines under it.
pub open spec fn section(title: Seq<char>, lines: Seq<Seq<char>>, escape: Seq<char>, color: bool) -> Seq<char> {
    let reset = code(color, "\x1b[0m"@);
    let close = if escape.len() == 0 {
        ""@
    } else {
        reset
    };
    " "@ + code(color, "\x1b[1m"@) + title + reset + "\n"@ + block(lines, code(color, escape), close) + "\n"@
}

/// An explanation as it is printed.
pub open spec fn explanation_text(e: ExplanationView, color: bool) -> Seq<char> {
    "\n "@ + code(color, "\x1b[1m"@) + "ⓘ  "@ + e.rule_id + code(color, "\x1b[0m"@) + "\n\n"@ + section(
        "What it checks"@,
        wrapped(e.what, 70),
        ""@,
        color,
    ) + section("SVD fact"@, wrapped(e.svd_fact, 70), "\x1b[36m"@, color) + section(
        "Example — triggers this rule"@,
        text::lines(e.bad_example),
        "\x1b[31m"@,
        color,
    ) + section("Example — passes"@, text::lines(e.ok_example), "\x1b[32m"@, color)
}

/// What is said of a rule that is not known.
pub open spec fn unknown_rule_text(rule_id: Seq<char>) -> Seq<char> {
    "silicon: unknown rule '"@ + rule_id + "'\nknown rules: "@ + text::join(known_rules(), ", "@) + "\n"@
}

pub(crate) fn code_text(color: bool, escape: &'static str) -> (r: &'static str)
    ensures
        r@ == code(color, escape@),
{
    if color {
        escape
    } else {
        ""
    }
}

fn block_text(lines: &[String], open: &str, close: &str) -> (r: String)
    ensures
        r@ == block(text::views(lines@), open@, close@),
{
    let ghost all = text::views(lines@);
    let mut out = String::new();
    let mut i: usize = 0;
    assert(all.take(0).len() == 0);
    while i < lines.len()
        invariant
            i <= lines@.len(),
            all == text::views(lines@),
            out@ == block(all.take(i as int), open@, close@),
        decreases lines.len() - i,
    {
        assert(all.take(i + 1).drop_last() =~= all.take(i as int));
        assert(all.take(i + 1).last() == lines@[i as int]@);
        out.append("   ");
        out.append(open);
        out.append(lines[i].as_str());
        out.append(close);
        out.append("\n");
        i += 1;
    }
    assert(all.take(all.len() as int) =~= all);
    out
}

fn section_text(title: &str, lines: &[String], escape: &'static str, color: bool) -> (r: String)
    ensures
        r@ == section(title@, text::views(lines@), escape@, color),
{
    let reset = code_text(color, "\x1b[0m");
    let close = if escape.unicode_len() == 0 {
        ""
    } else {
        reset
    };
    " ".to_owned().concat(code_text(color, "\x1b[1m")).concat(title).concat(reset).concat("\n").concat(
        block_text(lines, code_text(color, escape), close).as_str(),
    ).concat("\n")
}

/// Explains a rule. The error is what to say of a rule that is not known.
pub fn explain(rule_id: &str, color: bool) -> (r: Result<String, String>)
    ensures
        match r {
            Ok(text) => explanation(rule_id@) matches Some(e) && text@ == explanation_text(e, color),
            Err(text) => explanation(rule_id@) is None && text@ == unknown_rule_text(rule_id@),
        },
{
    match find_explanation(rule_id) {
        Some(e) => Ok(
            "\n ".to_owned().concat(code_text(color, "\x1b[1m")).concat("ⓘ  ").concat(e.rule_id).concat(
                code_text(color, "\x1b[0m"),
            ).concat("\n\n").concat(
                section_text("What it checks", &wrap_text(e.what, 70), "", color).as_str(),
            ).concat(section_text("SVD fact", &wrap_text(e.svd_fact, 70), "\x1b[36m", color).as_str()).concat(
                section_text(
                    "Example — triggers this rule",
                    &text::lines_text(e.bad_example),
                    "\x1b[31m",
                    color,
                ).as_str(),
            ).concat(
                section_text("Example — passes", &text::lines_text(e.ok_example), "\x1b[32m", color).as_str(),
            ),
        ),
        None => Err(
            "silicon: unknown rule '".to_owned().concat(rule_id).concat("'\nknown rules: ").concat(
                text::join_text(&known_rule_names(), ", ").as_str(),
            ).concat("\n"),
        ),
    }
}

// ── What holds of every explanation ──────────────────────────────────────────

/// Every rule that a finding can have is explained.
pub proof fn every_rule_is_explained(kind: FindingKindView)
    ensures
        explanation(kind.rule_id()) matches Some(e) && e.rule_id == kind.rule_id(),
        known_rules().contains(kind.rule_id()),
{
    assert(known_rules()[0] == "field-value-not-in-enum"@);
    assert(known_rules()[1] == "nonexistent-register"@);
    assert(known_rules()[2] == "address-not-a-register"@);
    assert(known_rules()[3] == "value-exceeds-register-width"@);
    assert(known_rules()[4] == "value-sets-undefined-bits"@);
    assert(known_rules()[5] == "write-to-read-only-register"@);
    assert(known_rules()[6] == "write-to-read-only-field"@);
    assert(known_rules()[7] == "hal-call-pin-out-of-range"@);
    assert(known_rules()[8] == "hal-call-funcsel-not-in-enum"@);
    assert(known_rules()[9] == "hal-call-index-out-of-range"@);
    assert(known_rules()[10] == "hal-call-instance-not-in-svd"@);
}

/// A rule is explained exactly if it is one of the known rules, and under its own name.
pub proof fn known_rules_are_those_explained(rule_id: Seq<char>)
    ensures
        explanation(rule_id) is Some <==> known_rules().contains(rule_id),
        explanation(rule_id) matches Some(e) ==> e.rule_id == rule_id,
{
    assert(known_rules()[0] == "field-value-not-in-enum"@);
    assert(known_rules()[1] == "nonexistent-register"@);
    assert(known_rules()[2] == "address-not-a-register"@);
    assert(known_rules()[3] == "value-exceeds-register-width"@);
    assert(known_rules()[4] == "value-sets-undefined-bits"@);
    assert(known_rules()[5] == "write-to-read-only-register"@);
    assert(known_rules()[6] == "write-to-read-only-field"@);
    assert(known_rules()[7] == "hal-call-pin-out-of-range"@);
    assert(known_rules()[8] == "hal-call-funcsel-not-in-enum"@);
    assert(known_rules()[9] == "hal-call-index-out-of-range"@);
    assert(known_rules()[10] == "hal-call-instance-not-in-svd"@);
}

proof fn lemma_words(s: Seq<char>)
    ensures
        forall|i: int| 0 <= i < text::words(s).len() ==> (#[trigger] text::words(s)[i]).len() > 0,
{
    lemma_words_and_rest(s);
}

proof fn lemma_words_and_rest(s: Seq<char>)
    ensures
        forall|i: int|
            0 <= i < text::words_and_rest(s).0.len() ==> (#[trigger] text::words_and_rest(s).0[i]).len() > 0,
    decreases s.len(),
{
    if s.len() > 0 {
        lemma_words_and_rest(s.drop_last());
        let before = text::words_and_rest(s.drop_last()).0;
        let after = text::words_and_rest(s).0;
        assert forall|i: int| 0 <= i < after.len() implies (#[trigger] after[i]).len() > 0 by {
            if i < before.len() {
                assert(after[i] == before[i]);
            }
        }
    }
}

/// Whether a line is not too long, or a single word.
pub open spec fn line_fits(line: Seq<char>, words: Seq<Seq<char>>, width: nat) -> bool {
    text::byte_len(line) <= width || words.contains(line)
}

proof fn lemma_filled(words: Seq<Seq<char>>, width: nat)
    requires
        forall|i: int| 0 <= i < words.len() ==> (#[trigger] words[i]).len() > 0,
    ensures
        ({
            let (lines, current) = filled(words, width);
            &&& words.len() > 0 ==> current.len() > 0 && line_fits(current, words, width)
            &&& words.len() == 0 ==> current.len() == 0 && lines.len() == 0
            &&& forall|i: int| 0 <= i < lines.len() ==> line_fits(#[trigger] lines[i], words, width)
            &&& words.len() > 0 ==> text::join(lines.push(current), " "@) == text::join(words, " "@)
        }),
    decreases words.len(),
{
    if words.len() > 0 {
        let rest = words.drop_last();
        let word = words.last();
        assert(words[words.len() - 1] == word);
        assert forall|i: int| 0 <= i < rest.len() implies (#[trigger] rest[i]).len() > 0 by {
            assert(rest[i] == words[i]);
        }
        lemma_filled(rest, width);
        let (lines, current) = filled(rest, width);
        let (lines_after, after) = filled(words, width);
        assert forall|line: Seq<char>| #[trigger] line_fits(line, rest, width) implies line_fits(
            line,
            words,
            width,
        ) by {
            if rest.contains(line) {
                let i = rest.index_of(line);
                assert(words[i] == line);
            }
        }
        if rest.len() == 0 {
            assert(lines.push(word) =~= seq![word]);
            assert(words =~= seq![word]);
        } else if text::byte_len(current) + 1 + text::byte_len(word) <= width {
            reveal_strlit(" ");
            text::lemma_byte_len_concat(current, " "@);
            text::lemma_byte_len_concat(current + " "@, word);
            vstd::utf8::is_ascii_chars_encode_utf8(" "@);
            let joined = text::join(lines.push(current), " "@);
            assert(lines.push(current).drop_last() =~= lines);
            assert(lines.push(after).drop_last() =~= lines);
            if lines.len() == 0 {
                assert(text::join(lines.push(after), " "@) =~= joined + " "@ + word);
            } else {
                assert(text::join(lines.push(after), " "@) =~= joined + " "@ + word);
            }
        } else {
            assert(lines_after.push(after).drop_last() =~= lines.push(current));
        }
    }
}

/// Wrapping keeps the words in order, and makes no line too long unless it is one word.
pub proof fn wrapping_keeps_words(s: Seq<char>, width: nat)
    ensures
        text::join(wrapped(s, width), " "@) == text::join(text::words(s), " "@),
        forall|i: int|
            0 <= i < wrapped(s, width).len() ==> line_fits(#[trigger] wrapped(s, width)[i], text::words(s), width),
{
    lemma_words(s);
    lemma_filled(text::words(s), width);
}

} // verus!
