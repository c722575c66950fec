//! The explanation of a rule is about that rule.

use vstd::prelude::*;

use crate::display_laws;
use crate::explain;
use crate::finding::FindingKindView;

verus! {

/// What the explanation of a rule has to speak of.
pub open spec fn subject(kind: FindingKindView) -> Seq<char> {
    match kind {
        FindingKindView::FieldValueNotInEnum { .. } => "not one of the allowed values"@,
        FindingKindView::NonexistentRegister { .. } => "doesn't appear in the SVD"@,
        FindingKindView::AddressNotARegister { .. } => "literal address"@,
        FindingKindView::ValueExceedsRegisterWidth { .. } => "too large to fit"@,
        FindingKindView::ValueSetsUndefinedBits { .. } => "outside all defined fields"@,
        FindingKindView::WriteToReadOnlyRegister { .. } => "entire register as read-only"@,
        FindingKindView::WriteToReadOnlyField { .. } => "specific field is read-only"@,
        FindingKindView::HalCallPinOutOfRange { .. } => "pin number outside"@,
        FindingKindView::HalCallFuncselNotInEnum { .. } => "FUNCSEL enum"@,
        FindingKindView::HalCallIndexOutOfRange { .. } => "channel index"@,
        FindingKindView::HalCallInstanceNotInSvd { .. } => "instance argument"@,
    }
}

/// What its first example has to show: C that breaks the rule.
pub open spec fn broken(kind: FindingKindView) -> Seq<char> {
    match kind {
        FindingKindView::FieldValueNotInEnum { .. } => "12u << 5"@,
        FindingKindView::NonexistentRegister { .. } => "not_a_real_register"@,
        FindingKindView::AddressNotARegister { .. } => "0xd0000001u"@,
        FindingKindView::ValueExceedsRegisterWidth { .. } => "fbdiv_int = 5000"@,
        FindingKindView::ValueSetsUndefinedBits { .. } => "0x80000064u"@,
        FindingKindView::WriteToReadOnlyRegister { .. } => "sio_hw->cpuid = 5"@,
        FindingKindView::WriteToReadOnlyField { .. } => "sio_hw->cpuid = 5"@,
        FindingKindView::HalCallPinOutOfRange { .. } => "gpio_init(30)"@,
        FindingKindView::HalCallFuncselNotInEnum { .. } => "gpio_set_function(25, 99)"@,
        FindingKindView::HalCallIndexOutOfRange { .. } => "pwm_set_wrap(8, 1000)"@,
        FindingKindView::HalCallInstanceNotInSvd { .. } => "uart_init(uart2"@,
    }
}

/// What its second example has to show: C that does not.
pub open spec fn kept(kind: FindingKindView) -> Seq<char> {
    match kind {
        FindingKindView::FieldValueNotInEnum { .. } => "0u << 5"@,
        FindingKindView::NonexistentRegister { .. } => "gpio_out"@,
        FindingKindView::AddressNotARegister { .. } => "0xd0000010u"@,
        FindingKindView::ValueExceedsRegisterWidth { .. } => "fbdiv_int = 125"@,
        FindingKindView::ValueSetsUndefinedBits { .. } => "fbdiv_int = 100"@,
        FindingKindView::WriteToReadOnlyRegister { .. } => "= sio_hw->cpuid"@,
        FindingKindView::WriteToReadOnlyField { .. } => "only to writable fields"@,
        FindingKindView::HalCallPinOutOfRange { .. } => "gpio_init(25)"@,
        FindingKindView::HalCallFuncselNotInEnum { .. } => "gpio_set_function(25, 5)"@,
        FindingKindView::HalCallIndexOutOfRange { .. } => "pwm_set_wrap(7, 1000)"@,
        FindingKindView::HalCallInstanceNotInSvd { .. } => "uart_init(uart1"@,
    }
}

#[verifier::spinoff_prover]
proof fn lemma_field_value_not_in_enum()
    ensures
        display_laws::shown("not one of the allowed values"@, "A value written to a bitfield is not one of the allowed values listed in the SVD's <enumeratedValues> for that field."@),
        display_laws::shown("12u << 5"@, "// AUXSRC = 12 — not in SVD enum {0..10}\nclocks_hw->clk_gpout0_ctrl = 12u << 5;"@),
        display_laws::shown("0u << 5"@, "// AUXSRC = 0 (clksrc_pll_sys) — valid per SVD\nclocks_hw->clk_gpout0_ctrl = 0u << 5;"@),
{
    reveal_strlit("A value written to a bitfield is not one of the allowed values listed in the SVD's <enumeratedValues> for that field.");
    reveal_strlit("not one of the allowed values");
    assert("not one of the allowed values"@.len() == 29 && "A value written to a bitfield is not one of the allowed values listed in the SVD's <enumeratedValues> for that field."@.len() == 117);
    assert("A value written to a bitfield is not one of the allowed values listed in the SVD's <enumeratedValues> for that field."@.subrange(33, (33 + "not one of the allowed values"@.len()) as int) =~= "not one of the allowed values"@);
    reveal_strlit("// AUXSRC = 12 — not in SVD enum {0..10}\nclocks_hw->clk_gpout0_ctrl = 12u << 5;");
    reveal_strlit("12u << 5");
    assert("12u << 5"@.len() == 8 && "// AUXSRC = 12 — not in SVD enum {0..10}\nclocks_hw->clk_gpout0_ctrl = 12u << 5;"@.len() == 79);
    assert("// AUXSRC = 12 — not in SVD enum {0..10}\nclocks_hw->clk_gpout0_ctrl = 12u << 5;"@.subrange(70, (70 + "12u << 5"@.len()) as int) =~= "12u << 5"@);
    reveal_strlit("// AUXSRC = 0 (clksrc_pll_sys) — valid per SVD\nclocks_hw->clk_gpout0_ctrl = 0u << 5;");
    reveal_strlit("0u << 5");
    assert("0u << 5"@.len() == 7 && "// AUXSRC = 0 (clksrc_pll_sys) — valid per SVD\nclocks_hw->clk_gpout0_ctrl = 0u << 5;"@.len() == 84);
    assert("// AUXSRC = 0 (clksrc_pll_sys) — valid per SVD\nclocks_hw->clk_gpout0_ctrl = 0u << 5;"@.subrange(76, (76 + "0u << 5"@.len()) as int) =~= "0u << 5"@);
}

#[verifier::spinoff_prover]
proof fn lemma_nonexistent_register()
    ensures
        display_laws::shown("doesn't appear in the SVD"@, "The register name doesn't appear in the SVD for the given peripheral. Usually a mistyped name or wrong peripheral struct."@),
        display_laws::shown("not_a_real_register"@, "sio_hw->not_a_real_register = 1;  // no such register in SIO"@),
        display_laws::shown("gpio_out"@, "sio_hw->gpio_out = 1u << 25;       // GPIO_OUT exists in SVD"@),
{
    reveal_strlit("The register name doesn't appear in the SVD for the given peripheral. Usually a mistyped name or wrong peripheral struct.");
    reveal_strlit("doesn't appear in the SVD");
    assert("doesn't appear in the SVD"@.len() == 25 && "The register name doesn't appear in the SVD for the given peripheral. Usually a mistyped name or wrong peripheral struct."@.len() == 121);
    assert("The register name doesn't appear in the SVD for the given peripheral. Usually a mistyped name or wrong peripheral struct."@.subrange(18, (18 + "doesn't appear in the SVD"@.len()) as int) =~= "doesn't appear in the SVD"@);
    reveal_strlit("sio_hw->not_a_real_register = 1;  // no such register in SIO");
    reveal_strlit("not_a_real_register");
    assert("not_a_real_register"@.len() == 19 && "sio_hw->not_a_real_register = 1;  // no such register in SIO"@.len() == 60);
    assert("sio_hw->not_a_real_register = 1;  // no such register in SIO"@.subrange(8, (8 + "not_a_real_register"@.len()) as int) =~= "not_a_real_register"@);
    reveal_strlit("sio_hw->gpio_out = 1u << 25;       // GPIO_OUT exists in SVD");
    reveal_strlit("gpio_out");
    assert("gpio_out"@.len() == 8 && "sio_hw->gpio_out = 1u << 25;       // GPIO_OUT exists in SVD"@.len() == 60);
    assert("sio_hw->gpio_out = 1u << 25;       // GPIO_OUT exists in SVD"@.subrange(8, (8 + "gpio_out"@.len()) as int) =~= "gpio_out"@);
}

#[verifier::spinoff_prover]
proof fn lemma_address_not_a_register()
    ensures
        display_laws::shown("literal address"@, "A literal address falls inside a peripheral's address block but doesn't align with any defined register's start address."@),
        display_laws::shown("0xd0000001u"@, "// SIO base is 0xd0000000; offset 0x1 is not a register boundary\n*(volatile uint32_t *)(0xd0000001u) = 1;"@),
        display_laws::shown("0xd0000010u"@, "// GPIO_OUT is at SIO base + 0x010\n*(volatile uint32_t *)(0xd0000010u) = 1u << 25;"@),
{
    reveal_strlit("A literal address falls inside a peripheral's address block but doesn't align with any defined register's start address.");
    reveal_strlit("literal address");
    assert("literal address"@.len() == 15 && "A literal address falls inside a peripheral's address block but doesn't align with any defined register's start address."@.len() == 120);
    assert("A literal address falls inside a peripheral's address block but doesn't align with any defined register's start address."@.subrange(2, (2 + "literal address"@.len()) as int) =~= "literal address"@);
    reveal_strlit("// SIO base is 0xd0000000; offset 0x1 is not a register boundary\n*(volatile uint32_t *)(0xd0000001u) = 1;");
    reveal_strlit("0xd0000001u");
    assert("0xd0000001u"@.len() == 11 && "// SIO base is 0xd0000000; offset 0x1 is not a register boundary\n*(volatile uint32_t *)(0xd0000001u) = 1;"@.len() == 105);
    assert("// SIO base is 0xd0000000; offset 0x1 is not a register boundary\n*(volatile uint32_t *)(0xd0000001u) = 1;"@.subrange(88, (88 + "0xd0000001u"@.len()) as int) =~= "0xd0000001u"@);
    reveal_strlit("// GPIO_OUT is at SIO base + 0x010\n*(volatile uint32_t *)(0xd0000010u) = 1u << 25;");
    reveal_strlit("0xd0000010u");
    assert("0xd0000010u"@.len() == 11 && "// GPIO_OUT is at SIO base + 0x010\n*(volatile uint32_t *)(0xd0000010u) = 1u << 25;"@.len() == 82);
    assert("// GPIO_OUT is at SIO base + 0x010\n*(volatile uint32_t *)(0xd0000010u) = 1u << 25;"@.subrange(58, (58 + "0xd0000010u"@.len()) as int) =~= "0xd0000010u"@);
}

#[verifier::spinoff_prover]
proof fn lemma_value_exceeds_register_width()
    ensures
        display_laws::shown("too large to fit"@, "The value written is too large to fit in the register's declared bit width."@),
        display_laws::shown("fbdiv_int = 5000"@, "// FBDIV_INT is 12 bits wide; 5000 > 4095\npll_sys_hw->fbdiv_int = 5000;"@),
        display_laws::shown("fbdiv_int = 125"@, "// 125 fits in 12 bits\npll_sys_hw->fbdiv_int = 125;"@),
{
    reveal_strlit("The value written is too large to fit in the register's declared bit width.");
    reveal_strlit("too large to fit");
    assert("too large to fit"@.len() == 16 && "The value written is too large to fit in the register's declared bit width."@.len() == 75);
    assert("The value written is too large to fit in the register's declared bit width."@.subrange(21, (21 + "too large to fit"@.len()) as int) =~= "too large to fit"@);
    reveal_strlit("// FBDIV_INT is 12 bits wide; 5000 > 4095\npll_sys_hw->fbdiv_int = 5000;");
    reveal_strlit("fbdiv_int = 5000");
    assert("fbdiv_int = 5000"@.len() == 16 && "// FBDIV_INT is 12 bits wide; 5000 > 4095\npll_sys_hw->fbdiv_int = 5000;"@.len() == 71);
    assert("// FBDIV_INT is 12 bits wide; 5000 > 4095\npll_sys_hw->fbdiv_int = 5000;"@.subrange(54, (54 + "fbdiv_int = 5000"@.len()) as int) =~= "fbdiv_int = 5000"@);
    reveal_strlit("// 125 fits in 12 bits\npll_sys_hw->fbdiv_int = 125;");
    reveal_strlit("fbdiv_int = 125");
    assert("fbdiv_int = 125"@.len() == 15 && "// 125 fits in 12 bits\npll_sys_hw->fbdiv_int = 125;"@.len() == 51);
    assert("// 125 fits in 12 bits\npll_sys_hw->fbdiv_int = 125;"@.subrange(35, (35 + "fbdiv_int = 125"@.len()) as int) =~= "fbdiv_int = 125"@);
}

#[verifier::spinoff_prover]
proof fn lemma_value_sets_undefined_bits()
    ensures
        display_laws::shown("outside all defined fields"@, "The value has 1-bits outside all defined fields — reserved or undocumented bits that the SVD doesn't assign to any field."@),
        display_laws::shown("0x80000064u"@, "// Bit 31 is not assigned to any field in PLL_SYS.FBDIV_INT\npll_sys_hw->fbdiv_int = 0x80000064u;"@),
        display_laws::shown("fbdiv_int = 100"@, "// Only the FBDIV_INT field bits (0..11) are set\npll_sys_hw->fbdiv_int = 100;"@),
{
    reveal_strlit("The value has 1-bits outside all defined fields — reserved or undocumented bits that the SVD doesn't assign to any field.");
    reveal_strlit("outside all defined fields");
    assert("outside all defined fields"@.len() == 26 && "The value has 1-bits outside all defined fields — reserved or undocumented bits that the SVD doesn't assign to any field."@.len() == 121);
    assert("The value has 1-bits outside all defined fields — reserved or undocumented bits that the SVD doesn't assign to any field."@.subrange(21, (21 + "outside all defined fields"@.len()) as int) =~= "outside all defined fields"@);
    reveal_strlit("// Bit 31 is not assigned to any field in PLL_SYS.FBDIV_INT\npll_sys_hw->fbdiv_int = 0x80000064u;");
    reveal_strlit("0x80000064u");
    assert("0x80000064u"@.len() == 11 && "// Bit 31 is not assigned to any field in PLL_SYS.FBDIV_INT\npll_sys_hw->fbdiv_int = 0x80000064u;"@.len() == 96);
    assert("// Bit 31 is not assigned to any field in PLL_SYS.FBDIV_INT\npll_sys_hw->fbdiv_int = 0x80000064u;"@.subrange(84, (84 + "0x80000064u"@.len()) as int) =~= "0x80000064u"@);
    reveal_strlit("// Only the FBDIV_INT field bits (0..11) are set\npll_sys_hw->fbdiv_int = 100;");
    reveal_strlit("fbdiv_int = 100");
    assert("fbdiv_int = 100"@.len() == 15 && "// Only the FBDIV_INT field bits (0..11) are set\npll_sys_hw->fbdiv_int = 100;"@.len() == 77);
    assert("// Only the FBDIV_INT field bits (0..11) are set\npll_sys_hw->fbdiv_int = 100;"@.subrange(61, (61 + "fbdiv_int = 100"@.len()) as int) =~= "fbdiv_int = 100"@);
}

#[verifier::spinoff_prover]
proof fn lemma_write_to_read_only_register()
    ensures
        display_laws::shown("entire register as read-only"@, "The SVD marks the entire register as read-only, but firmware writes to it."@),
        display_laws::shown("sio_hw->cpuid = 5"@, "sio_hw->cpuid = 5;  // CPUID is read-only in the SVD"@),
        display_laws::shown("= sio_hw->cpuid"@, "uint32_t id = sio_hw->cpuid;  // read is fine"@),
{
    reveal_strlit("The SVD marks the entire register as read-only, but firmware writes to it.");
    reveal_strlit("entire register as read-only");
    assert("entire register as read-only"@.len() == 28 && "The SVD marks the entire register as read-only, but firmware writes to it."@.len() == 74);
    assert("The SVD marks the entire register as read-only, but firmware writes to it."@.subrange(18, (18 + "entire register as read-only"@.len()) as int) =~= "entire register as read-only"@);
    reveal_strlit("sio_hw->cpuid = 5;  // CPUID is read-only in the SVD");
    reveal_strlit("sio_hw->cpuid = 5");
    assert("sio_hw->cpuid = 5"@.len() == 17 && "sio_hw->cpuid = 5;  // CPUID is read-only in the SVD"@.len() == 52);
    assert("sio_hw->cpuid = 5;  // CPUID is read-only in the SVD"@.subrange(0, (0 + "sio_hw->cpuid = 5"@.len()) as int) =~= "sio_hw->cpuid = 5"@);
    reveal_strlit("uint32_t id = sio_hw->cpuid;  // read is fine");
    reveal_strlit("= sio_hw->cpuid");
    assert("= sio_hw->cpuid"@.len() == 15 && "uint32_t id = sio_hw->cpuid;  // read is fine"@.len() == 45);
    assert("uint32_t id = sio_hw->cpuid;  // read is fine"@.subrange(12, (12 + "= sio_hw->cpuid"@.len()) as int) =~= "= sio_hw->cpuid"@);
}

#[verifier::spinoff_prover]
proof fn lemma_write_to_read_only_field()
    ensures
        display_laws::shown("specific field is read-only"@, "A specific field is read-only in the SVD, and the write sets bits within that field."@),
        display_laws::shown("sio_hw->cpuid = 5"@, "// CPUID field is read-only\nsio_hw->cpuid = 5;"@),
        display_laws::shown("only to writable fields"@, "// Write only to writable fields"@),
{
    reveal_strlit("A specific field is read-only in the SVD, and the write sets bits within that field.");
    reveal_strlit("specific field is read-only");
    assert("specific field is read-only"@.len() == 27 && "A specific field is read-only in the SVD, and the write sets bits within that field."@.len() == 84);
    assert("A specific field is read-only in the SVD, and the write sets bits within that field."@.subrange(2, (2 + "specific field is read-only"@.len()) as int) =~= "specific field is read-only"@);
    reveal_strlit("// CPUID field is read-only\nsio_hw->cpuid = 5;");
    reveal_strlit("sio_hw->cpuid = 5");
    assert("sio_hw->cpuid = 5"@.len() == 17 && "// CPUID field is read-only\nsio_hw->cpuid = 5;"@.len() == 46);
    assert("// CPUID field is read-only\nsio_hw->cpuid = 5;"@.subrange(28, (28 + "sio_hw->cpuid = 5"@.len()) as int) =~= "sio_hw->cpuid = 5"@);
    reveal_strlit("// Write only to writable fields");
    reveal_strlit("only to writable fields");
    assert("only to writable fields"@.len() == 23 && "// Write only to writable fields"@.len() == 32);
    assert("// Write only to writable fields"@.subrange(9, (9 + "only to writable fields"@.len()) as int) =~= "only to writable fields"@);
}

#[verifier::spinoff_prover]
proof fn lemma_hal_call_pin_out_of_range()
    ensures
        display_laws::shown("pin number outside"@, "A gpio_* HAL call passes a pin number outside the RP2040's GPIO range (GPIO0–GPIO29)."@),
        display_laws::shown("gpio_init(30)"@, "gpio_init(30);   // GPIO30 doesn't exist on RP2040"@),
        display_laws::shown("gpio_init(25)"@, "gpio_init(25);   // GPIO25 = onboard LED on Pico"@),
{
    reveal_strlit("A gpio_* HAL call passes a pin number outside the RP2040's GPIO range (GPIO0–GPIO29).");
    reveal_strlit("pin number outside");
    assert("pin number outside"@.len() == 18 && "A gpio_* HAL call passes a pin number outside the RP2040's GPIO range (GPIO0–GPIO29)."@.len() == 85);
    assert("A gpio_* HAL call passes a pin number outside the RP2040's GPIO range (GPIO0–GPIO29)."@.subrange(27, (27 + "pin number outside"@.len()) as int) =~= "pin number outside"@);
    reveal_strlit("gpio_init(30);   // GPIO30 doesn't exist on RP2040");
    reveal_strlit("gpio_init(30)");
    assert("gpio_init(30)"@.len() == 13 && "gpio_init(30);   // GPIO30 doesn't exist on RP2040"@.len() == 50);
    assert("gpio_init(30);   // GPIO30 doesn't exist on RP2040"@.subrange(0, (0 + "gpio_init(30)"@.len()) as int) =~= "gpio_init(30)"@);
    reveal_strlit("gpio_init(25);   // GPIO25 = onboard LED on Pico");
    reveal_strlit("gpio_init(25)");
    assert("gpio_init(25)"@.len() == 13 && "gpio_init(25);   // GPIO25 = onboard LED on Pico"@.len() == 48);
    assert("gpio_init(25);   // GPIO25 = onboard LED on Pico"@.subrange(0, (0 + "gpio_init(25)"@.len()) as int) =~= "gpio_init(25)"@);
}

#[verifier::spinoff_prover]
proof fn lemma_hal_call_funcsel_not_in_enum()
    ensures
        display_laws::shown("FUNCSEL enum"@, "gpio_set_function is called with a function selector value not in the SVD's FUNCSEL enum for that pin."@),
        display_laws::shown("gpio_set_function(25, 99)"@, "gpio_set_function(25, 99);  // 99 is not a valid FUNCSEL"@),
        display_laws::shown("gpio_set_function(25, 5)"@, "gpio_set_function(25, 5);   // 5 = SIO function, valid per SVD"@),
{
    reveal_strlit("gpio_set_function is called with a function selector value not in the SVD's FUNCSEL enum for that pin.");
    reveal_strlit("FUNCSEL enum");
    assert("FUNCSEL enum"@.len() == 12 && "gpio_set_function is called with a function selector value not in the SVD's FUNCSEL enum for that pin."@.len() == 102);
    assert("gpio_set_function is called with a function selector value not in the SVD's FUNCSEL enum for that pin."@.subrange(76, (76 + "FUNCSEL enum"@.len()) as int) =~= "FUNCSEL enum"@);
    reveal_strlit("gpio_set_function(25, 99);  // 99 is not a valid FUNCSEL");
    reveal_strlit("gpio_set_function(25, 99)");
    assert("gpio_set_function(25, 99)"@.len() == 25 && "gpio_set_function(25, 99);  // 99 is not a valid FUNCSEL"@.len() == 56);
    assert("gpio_set_function(25, 99);  // 99 is not a valid FUNCSEL"@.subrange(0, (0 + "gpio_set_function(25, 99)"@.len()) as int) =~= "gpio_set_function(25, 99)"@);
    reveal_strlit("gpio_set_function(25, 5);   // 5 = SIO function, valid per SVD");
    reveal_strlit("gpio_set_function(25, 5)");
    assert("gpio_set_function(25, 5)"@.len() == 24 && "gpio_set_function(25, 5);   // 5 = SIO function, valid per SVD"@.len() == 62);
    assert("gpio_set_function(25, 5);   // 5 = SIO function, valid per SVD"@.subrange(0, (0 + "gpio_set_function(25, 5)"@.len()) as int) =~= "gpio_set_function(25, 5)"@);
}

#[verifier::spinoff_prover]
proof fn lemma_hal_call_index_out_of_range()
    ensures
        display_laws::shown("channel index"@, "A PWM slice, DMA channel, or ADC channel index doesn't correspond to a peripheral instance defined in the SVD."@),
        display_laws::shown("pwm_set_wrap(8, 1000)"@, "pwm_set_wrap(8, 1000);          // only slices 0-7 exist\ndma_channel_configure(12, ...); // only channels 0-11 exist"@),
        display_laws::shown("pwm_set_wrap(7, 1000)"@, "pwm_set_wrap(7, 1000);          // slice 7 — last valid slice\ndma_channel_configure(0, ...);  // channel 0 is valid"@),
{
    reveal_strlit("A PWM slice, DMA channel, or ADC channel index doesn't correspond to a peripheral instance defined in the SVD.");
    reveal_strlit("channel index");
    assert("channel index"@.len() == 13 && "A PWM slice, DMA channel, or ADC channel index doesn't correspond to a peripheral instance defined in the SVD."@.len() == 110);
    assert("A PWM slice, DMA channel, or ADC channel index doesn't correspond to a peripheral instance defined in the SVD."@.subrange(33, (33 + "channel index"@.len()) as int) =~= "channel index"@);
    reveal_strlit("pwm_set_wrap(8, 1000);          // only slices 0-7 exist\ndma_channel_configure(12, ...); // only channels 0-11 exist");
    reveal_strlit("pwm_set_wrap(8, 1000)");
    assert("pwm_set_wrap(8, 1000)"@.len() == 21 && "pwm_set_wrap(8, 1000);          // only slices 0-7 exist\ndma_channel_configure(12, ...); // only channels 0-11 exist"@.len() == 116);
    assert("pwm_set_wrap(8, 1000);          // only slices 0-7 exist\ndma_channel_configure(12, ...); // only channels 0-11 exist"@.subrange(0, (0 + "pwm_set_wrap(8, 1000)"@.len()) as int) =~= "pwm_set_wrap(8, 1000)"@);
    reveal_strlit("pwm_set_wrap(7, 1000);          // slice 7 — last valid slice\ndma_channel_configure(0, ...);  // channel 0 is valid");
    reveal_strlit("pwm_set_wrap(7, 1000)");
    assert("pwm_set_wrap(7, 1000)"@.len() == 21 && "pwm_set_wrap(7, 1000);          // slice 7 — last valid slice\ndma_channel_configure(0, ...);  // channel 0 is valid"@.len() == 115);
    assert("pwm_set_wrap(7, 1000);          // slice 7 — last valid slice\ndma_channel_configure(0, ...);  // channel 0 is valid"@.subrange(0, (0 + "pwm_set_wrap(7, 1000)"@.len()) as int) =~= "pwm_set_wrap(7, 1000)"@);
}

#[verifier::spinoff_prover]
proof fn lemma_hal_call_instance_not_in_svd()
    ensures
        display_laws::shown("instance argument"@, "A UART, SPI, or I2C HAL call's instance argument doesn't match any peripheral in the SVD. The RP2040 has uart0/uart1, spi0/spi1, i2c0/i2c1."@),
        display_laws::shown("uart_init(uart2"@, "uart_init(uart2, 115200);  // RP2040 only has uart0 and uart1"@),
        display_laws::shown("uart_init(uart1"@, "uart_init(uart1, 115200);  // uart1 exists in SVD"@),
{
    reveal_strlit("A UART, SPI, or I2C HAL call's instance argument doesn't match any peripheral in the SVD. The RP2040 has uart0/uart1, spi0/spi1, i2c0/i2c1.");
    reveal_strlit("instance argument");
    assert("instance argument"@.len() == 17 && "A UART, SPI, or I2C HAL call's instance argument doesn't match any peripheral in the SVD. The RP2040 has uart0/uart1, spi0/spi1, i2c0/i2c1."@.len() == 139);
    assert("A UART, SPI, or I2C HAL call's instance argument doesn't match any peripheral in the SVD. The RP2040 has uart0/uart1, spi0/spi1, i2c0/i2c1."@.subrange(31, (31 + "instance argument"@.len()) as int) =~= "instance argument"@);
    reveal_strlit("uart_init(uart2, 115200);  // RP2040 only has uart0 and uart1");
    reveal_strlit("uart_init(uart2");
    assert("uart_init(uart2"@.len() == 15 && "uart_init(uart2, 115200);  // RP2040 only has uart0 and uart1"@.len() == 61);
    assert("uart_init(uart2, 115200);  // RP2040 only has uart0 and uart1"@.subrange(0, (0 + "uart_init(uart2"@.len()) as int) =~= "uart_init(uart2"@);
    reveal_strlit("uart_init(uart1, 115200);  // uart1 exists in SVD");
    reveal_strlit("uart_init(uart1");
    assert("uart_init(uart1"@.len() == 15 && "uart_init(uart1, 115200);  // uart1 exists in SVD"@.len() == 49);
    assert("uart_init(uart1, 115200);  // uart1 exists in SVD"@.subrange(0, (0 + "uart_init(uart1"@.len()) as int) =~= "uart_init(uart1"@);
}

/// A finding of any kind has an explanation that speaks of that kind, and shows first what
/// breaks the rule and then what does not.
pub proof fn explanations_are_about_their_rules(kind: FindingKindView)
    ensures
        explain::explanation(kind.rule_id()) matches Some(e) && e.rule_id == kind.rule_id() && display_laws::shown(
            subject(kind),
            e.what,
        ) && display_laws::shown(broken(kind), e.bad_example) && display_laws::shown(kept(kind), e.ok_example),
{
    explain::every_rule_is_explained(kind);
    lemma_field_value_not_in_enum();
    lemma_nonexistent_register();
    lemma_address_not_a_register();
    lemma_value_exceeds_register_width();
    lemma_value_sets_undefined_bits();
    lemma_write_to_read_only_register();
    lemma_write_to_read_only_field();
    lemma_hal_call_pin_out_of_range();
    lemma_hal_call_funcsel_not_in_enum();
    lemma_hal_call_index_out_of_range();
    lemma_hal_call_instance_not_in_svd();
    lemma_rules_differ();
}

/// The names of the rules differ.
proof fn lemma_rules_differ()
    ensures
        "field-value-not-in-enum"@.len() == 23,
        "nonexistent-register"@.len() == 20,
        "address-not-a-register"@.len() == 22,
        "value-exceeds-register-width"@.len() == 28,
        "value-sets-undefined-bits"@.len() == 25,
        "write-to-read-only-register"@.len() == 27,
        "write-to-read-only-field"@.len() == 24,
        "hal-call-pin-out-of-range"@.len() == 25,
        "hal-call-funcsel-not-in-enum"@.len() == 28,
        "hal-call-index-out-of-range"@.len() == 27,
        "hal-call-instance-not-in-svd"@.len() == 28,
        "value-exceeds-register-width"@ != "hal-call-funcsel-not-in-enum"@,
        "value-exceeds-register-width"@ != "hal-call-instance-not-in-svd"@,
        "value-sets-undefined-bits"@ != "hal-call-pin-out-of-range"@,
        "write-to-read-only-register"@ != "hal-call-index-out-of-range"@,
        "hal-call-funcsel-not-in-enum"@ != "hal-call-instance-not-in-svd"@,
{
    reveal_strlit("field-value-not-in-enum");
    reveal_strlit("nonexistent-register");
    reveal_strlit("address-not-a-register");
    reveal_strlit("value-exceeds-register-width");
    reveal_strlit("value-sets-undefined-bits");
    reveal_strlit("write-to-read-only-register");
    reveal_strlit("write-to-read-only-field");
    reveal_strlit("hal-call-pin-out-of-range");
    reveal_strlit("hal-call-funcsel-not-in-enum");
    reveal_strlit("hal-call-index-out-of-range");
    reveal_strlit("hal-call-instance-not-in-svd");
    assert("value-exceeds-register-width"@[0] == 'v' && "hal-call-funcsel-not-in-enum"@[0] == 'h');
    assert("value-exceeds-register-width"@[0] == 'v' && "hal-call-instance-not-in-svd"@[0] == 'h');
    assert("value-sets-undefined-bits"@[0] == 'v' && "hal-call-pin-out-of-range"@[0] == 'h');
    assert("write-to-read-only-register"@[0] == 'w' && "hal-call-index-out-of-range"@[0] == 'h');
    assert("hal-call-funcsel-not-in-enum"@[9] == 'f' && "hal-call-instance-not-in-svd"@[9] == 'i');
}

} // verus!
