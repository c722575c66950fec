//! What an SDK call is reported as, in terms of the SVD alone.

use vstd::prelude::*;

use crate::bits;
use crate::checker;
use crate::finding::{CheckResultView, FindingKindView, FindingView, IndexEvidenceView, NoteView, NotedView, Severity};
use crate::fw_parse::HalCallView;
use crate::hal_check;
use crate::svd_model;
use crate::svd_model::{FieldView, ModelView, PeripheralView, RegisterView};
use crate::text;
use crate::write_laws;

verus! {

broadcast use crate::finding::group_outcomes;

/// Whether there is nothing to say.
pub open spec fn silent(out: CheckResultView) -> bool {
    out.findings.len() == 0 && out.notes.len() == 0
}

/// Whether one finding is all there is to say of a call: an error, at the call's place,
/// with the call's text.
pub open spec fn only_finds(out: CheckResultView, call: HalCallView, kind: FindingKindView) -> bool {
    &&& out.notes.len() == 0
    &&& out.findings == seq![
        FindingView {
            kind,
            severity: Severity::Error,
            file: call.file,
            line: call.line,
            raw_lhs: call.function + "("@ + text::join(call.raw_args, ", "@) + ")"@,
            raw_op: Seq::empty(),
            raw_rhs: Seq::empty(),
        },
    ]
}

/// Whether one note is all there is to say of a call.
pub open spec fn only_notes(out: CheckResultView, call: HalCallView, note: NoteView) -> bool {
    &&& out.findings.len() == 0
    &&& out.notes == seq![NotedView { note, file: call.file, line: call.line }]
}

/// Whether all there is to say is that the argument at `i` is no constant.
pub open spec fn only_unknown(out: CheckResultView, call: HalCallView, i: usize) -> bool {
    only_notes(out, call, NoteView::HalCallArgUnknown { function: call.function, arg_index: i })
}

/// A check of one call looks at that call.
proof fn lemma_one_call(model: ModelView, call: HalCallView)
    ensures
        hal_check::calls_outcome(model, seq![call]) == hal_check::call_outcome(model, call),
{
    assert(seq![call].drop_last() =~= Seq::<HalCallView>::empty());
    assert(hal_check::calls_outcome(model, Seq::<HalCallView>::empty()) == CheckResultView::nothing());
}

proof fn lemma_found(call: HalCallView, kind: FindingKindView)
    requires
        kind.severity() == Severity::Error,
    ensures
        only_finds(hal_check::found(call, kind), call, kind),
{
    reveal_strlit("");
    assert(""@ =~= Seq::<char>::empty());
}

/// The names of the modelled functions differ.
proof fn lemma_functions()
    ensures
        "gpio_set_function"@.len() == 17 && "gpio_init"@.len() == 9 && "gpio_put"@.len() == 8 && "gpio_set_dir"@.len() == 12,
        "uart_init"@.len() == 9 && "spi_init"@.len() == 8 && "i2c_init"@.len() == 8,
        "pwm_set_wrap"@.len() == 12 && "pwm_set_chan_level"@.len() == 18 && "dma_channel_configure"@.len() == 21,
        "adc_select_input"@.len() == 16,
        "gpio_init"@[0] == 'g' && "uart_init"@[0] == 'u',
        "gpio_put"@[0] == 'g' && "spi_init"@[0] == 's' && "i2c_init"@[0] == 'i',
        "gpio_set_dir"@[0] == 'g' && "pwm_set_wrap"@[0] == 'p',
{
    reveal_strlit("gpio_set_function");
    reveal_strlit("gpio_init");
    reveal_strlit("gpio_put");
    reveal_strlit("gpio_set_dir");
    reveal_strlit("uart_init");
    reveal_strlit("spi_init");
    reveal_strlit("i2c_init");
    reveal_strlit("pwm_set_wrap");
    reveal_strlit("pwm_set_chan_level");
    reveal_strlit("dma_channel_configure");
    reveal_strlit("adc_select_input");
}

// ── Pins ─────────────────────────────────────────────────────────────────────

/// A call with a pin is reported exactly if the pin is none of the thirty; a pin that is no
/// constant is noted, and so nothing else is said of `gpio_init`, `gpio_put` and
/// `gpio_set_dir`.
pub proof fn pins_are_zero_to_twenty_nine(model: ModelView, call: HalCallView)
    requires
        call.function == "gpio_init"@ || call.function == "gpio_put"@ || call.function == "gpio_set_dir"@
            || call.function == "gpio_set_function"@,
    ensures
        ({
            let out = hal_check::calls_outcome(model, seq![call]);
            &&& call.args.len() == 0 ==> silent(out)
            &&& call.args.len() > 0 && call.args[0] is None ==> only_unknown(out, call, 0)
            &&& call.args.len() > 0 && (call.args[0] matches Some(pin) && pin >= 30) ==> only_finds(
                out,
                call,
                FindingKindView::HalCallPinOutOfRange { function: call.function, pin: call.args[0]->0 },
            )
            &&& call.function != "gpio_set_function"@ && call.args.len() > 0 && (call.args[0] matches Some(pin) && pin < 30)
                ==> silent(out)
        }),
{
    lemma_one_call(model, call);
    lemma_functions();
    if call.args.len() > 0 {
        if let Some(pin) = call.args[0] {
            lemma_found(call, FindingKindView::HalCallPinOutOfRange { function: call.function, pin });
        }
    }
}

/// Whether `f` is the FUNCSEL field of a pin: the first of that name in the first register
/// `GPIO<pin>_CTRL` of the last peripheral IO_BANK0.
pub open spec fn is_funcsel(
    model: ModelView,
    pin: u64,
    p: PeripheralView,
    r: RegisterView,
    k: int,
) -> bool {
    &&& write_laws::is_peripheral(model, "IO_BANK0"@, p)
    &&& write_laws::is_register(p, "GPIO"@ + text::decimal(pin as nat) + "_CTRL"@, r)
    &&& 0 <= k < r.fields.len() && r.fields[k].name == "FUNCSEL"@
    &&& forall|j: int| 0 <= j < k ==> (#[trigger] r.fields[j]).name != "FUNCSEL"@
}

proof fn lemma_field_is(
    model: ModelView,
    peripheral: Seq<char>,
    register: Seq<char>,
    field: Seq<char>,
    p: PeripheralView,
    r: RegisterView,
    k: int,
)
    requires
        write_laws::is_peripheral(model, peripheral, p),
        write_laws::is_register(p, register, r),
        0 <= k < r.fields.len(),
        r.fields[k].name == field,
        forall|j: int| 0 <= j < k ==> (#[trigger] r.fields[j]).name != field,
    ensures
        model.field(peripheral, register, field) == Some(r.fields[k]),
{
    write_laws::peripherals_are_found_by_name(model, peripheral, p);
    write_laws::registers_are_found_by_name(p, register, r);
    write_laws::fields_are_found_by_name(r.fields, field);
    if let Some(f) = svd_model::find_field(r.fields, field) {
        let i = choose|i: int|
            0 <= i < r.fields.len() && #[trigger] r.fields[i] == f && f.name == field && forall|j: int|
                0 <= j < i ==> (#[trigger] r.fields[j]).name != field;
        assert(r.fields[i].name == field);
        assert(i == k);
    } else {
        assert(r.fields[k].name != field);
    }
}

/// The function of a pin is reported exactly if none of the entries of the pin's FUNCSEL
/// enumeration has that number, however many bits the field has. Without an enumeration
/// it is noted.
pub proof fn functions_are_those_of_the_pin(
    model: ModelView,
    call: HalCallView,
    pin: u64,
    func: u64,
    p: PeripheralView,
    r: RegisterView,
    k: int,
)
    requires
        call.function == "gpio_set_function"@,
        call.args.len() >= 2,
        call.args[0] == Some(pin),
        call.args[1] == Some(func),
        pin < 30,
        is_funcsel(model, pin, p, r, k),
    ensures
        ({
            let out = hal_check::calls_outcome(model, seq![call]);
            match r.fields[k].allowed_values {
                Some(allowed) => {
                    &&& (forall|i: int| 0 <= i < allowed.len() ==> (#[trigger] allowed[i]).value != func) ==> only_finds(
                        out,
                        call,
                        FindingKindView::HalCallFuncselNotInEnum { pin, func, allowed },
                    )
                    &&& (exists|i: int| 0 <= i < allowed.len() && (#[trigger] allowed[i]).value == func) ==> silent(out)
                },
                None => only_notes(
                    out,
                    call,
                    NoteView::FieldUnverifiableNoEnum {
                        peripheral: "IO_BANK0"@,
                        register: "GPIO"@ + text::decimal(pin as nat) + "_CTRL"@,
                        field: "FUNCSEL"@,
                    },
                ),
            }
        }),
{
    lemma_one_call(model, call);
    lemma_functions();
    lemma_field_is(model, "IO_BANK0"@, "GPIO"@ + text::decimal(pin as nat) + "_CTRL"@, "FUNCSEL"@, p, r, k);
    if let Some(allowed) = r.fields[k].allowed_values {
        lemma_found(call, FindingKindView::HalCallFuncselNotInEnum { pin, func, allowed });
        if checker::lists(allowed, func) {
            let i = choose|i: int| 0 <= i < allowed.len() && (#[trigger] allowed[i]).value == func;
            assert(allowed[i].value == func);
        }
    }
}

/// A function that is no constant is noted, one that is missing or whose pin has no FUNCSEL
/// field in the SVD is passed over.
pub proof fn other_functions_of_a_pin(model: ModelView, call: HalCallView, pin: u64)
    requires
        call.function == "gpio_set_function"@,
        call.args.len() >= 1,
        call.args[0] == Some(pin),
        pin < 30,
    ensures
        ({
            let out = hal_check::calls_outcome(model, seq![call]);
            &&& call.args.len() == 1 ==> silent(out)
            &&& call.args.len() > 1 && call.args[1] is None ==> only_unknown(out, call, 1)
            &&& call.args.len() > 1 && call.args[1] is Some && (forall|p: PeripheralView, r: RegisterView, k: int|
                !is_funcsel(model, pin, p, r, k)) ==> silent(out)
        }),
{
    lemma_one_call(model, call);
    lemma_functions();
    let name = "GPIO"@ + text::decimal(pin as nat) + "_CTRL"@;
    if let Some(p) = model.peripheral("IO_BANK0"@) {
        write_laws::peripherals_are_found_by_name(model, "IO_BANK0"@, p);
        if let Some(r) = svd_model::find_register(p.registers, name) {
            write_laws::registers_are_found_by_name(p, name, r);
            write_laws::fields_are_found_by_name(r.fields, "FUNCSEL"@);
            if let Some(f) = svd_model::find_field(r.fields, "FUNCSEL"@) {
                let k = choose|k: int|
                    0 <= k < r.fields.len() && #[trigger] r.fields[k] == f && f.name == "FUNCSEL"@ && forall|j: int|
                        0 <= j < k ==> (#[trigger] r.fields[j]).name != "FUNCSEL"@;
                assert(is_funcsel(model, pin, p, r, k));
            }
        }
    }
}

// ── Instances ────────────────────────────────────────────────────────────────

/// The instance of `uart_init`, `spi_init` or `i2c_init` is reported exactly if it is
/// written as one, the kind with a number, and the SVD has no peripheral of that name in
/// upper case. Anything else in its place is noted.
pub proof fn instances_are_peripherals(model: ModelView, call: HalCallView, kind: Seq<char>)
    requires
        (call.function == "uart_init"@ && kind == "uart"@) || (call.function == "spi_init"@ && kind == "spi"@) || (
        call.function == "i2c_init"@ && kind == "i2c"@),
    ensures
        ({
            let out = hal_check::calls_outcome(model, seq![call]);
            let name = call.raw_args[0];
            let written = name.len() > kind.len() && name.take(kind.len() as int) == kind && forall|i: int|
                kind.len() <= i < name.len() ==> '0' <= #[trigger] name[i] && name[i] <= '9';
            let known = exists|i: int|
                0 <= i < model.peripherals.len() && (#[trigger] model.peripherals[i]).name == text::upper_case(name);
            if call.raw_args.len() == 0 {
                silent(out)
            } else if !written {
                only_unknown(out, call, 0)
            } else if known {
                silent(out)
            } else {
                only_finds(
                    out,
                    call,
                    FindingKindView::HalCallInstanceNotInSvd {
                        function: call.function,
                        instance: name,
                        peripheral: text::upper_case(name),
                    },
                )
            }
        }),
{
    lemma_one_call(model, call);
    lemma_functions();
    if call.raw_args.len() > 0 {
        let name = call.raw_args[0];
        let peripheral = text::upper_case(name);
        lemma_found(
            call,
            FindingKindView::HalCallInstanceNotInSvd { function: call.function, instance: name, peripheral },
        );
        let any: PeripheralView = arbitrary();
        write_laws::peripherals_are_found_by_name(model, peripheral, any);
        if name.len() > kind.len() {
            assert(name.take(kind.len() as int) =~= name.subrange(0, kind.len() as int));
        }
        assert(hal_check::is_instance(name, kind) == (name.len() > kind.len() && name.take(kind.len() as int) == kind
            && forall|i: int| kind.len() <= i < name.len() ==> '0' <= #[trigger] name[i] && name[i] <= '9'));
    }
}

// ── Channels ─────────────────────────────────────────────────────────────────

/// What is said of an index that is looked for as a register.
pub open spec fn index_said(
    out: CheckResultView,
    model: ModelView,
    call: HalCallView,
    peripheral: Seq<char>,
    suffix: Seq<char>,
    p: PeripheralView,
) -> bool {
    let index = call.args[0]->0;
    let register = "CH"@ + text::decimal(index as nat) + suffix;
    if call.args.len() == 0 {
        silent(out)
    } else if call.args[0] is None {
        only_unknown(out, call, 0)
    } else {
        &&& (forall|i: int| 0 <= i < model.peripherals.len() ==> (#[trigger] model.peripherals[i]).name != peripheral)
            ==> silent(out)
        &&& write_laws::is_peripheral(model, peripheral, p) && (exists|i: int|
            0 <= i < p.registers.len() && (#[trigger] p.registers[i]).name == register) ==> silent(out)
        &&& write_laws::is_peripheral(model, peripheral, p) && (forall|i: int|
            0 <= i < p.registers.len() ==> (#[trigger] p.registers[i]).name != register) ==> only_finds(
            out,
            call,
            FindingKindView::HalCallIndexOutOfRange {
                function: call.function,
                arg_index: 0,
                index,
                evidence: IndexEvidenceView::NoSuchRegister { peripheral, register },
            },
        )
    }
}

proof fn lemma_index_said(
    model: ModelView,
    call: HalCallView,
    peripheral: Seq<char>,
    suffix: Seq<char>,
    p: PeripheralView,
)
    ensures
        index_said(hal_check::channel_outcome(model, call, peripheral, suffix), model, call, peripheral, suffix, p),
{
    if call.args.len() > 0 && call.args[0] is Some {
        let index = call.args[0]->0;
        let register = "CH"@ + text::decimal(index as nat) + suffix;
        lemma_found(
            call,
            FindingKindView::HalCallIndexOutOfRange {
                function: call.function,
                arg_index: 0,
                index,
                evidence: IndexEvidenceView::NoSuchRegister { peripheral, register },
            },
        );
        write_laws::peripherals_are_found_by_name(model, peripheral, p);
        let any: RegisterView = arbitrary();
        write_laws::registers_are_found_by_name(p, register, any);
        if exists|i: int| 0 <= i < p.registers.len() && (#[trigger] p.registers[i]).name == register {
            let i = choose|i: int| 0 <= i < p.registers.len() && (#[trigger] p.registers[i]).name == register;
            assert(!(p.registers[i].name != register));
        }
    }
}

/// A PWM slice is reported exactly if the SVD's PWM has no register `CH<slice>_TOP`, a DMA
/// channel exactly if its DMA has no register `CH<channel>_CTRL_TRIG`.
pub proof fn channels_have_registers(model: ModelView, call: HalCallView, p: PeripheralView)
    ensures
        call.function == "pwm_set_wrap"@ ==> index_said(
            hal_check::calls_outcome(model, seq![call]),
            model,
            call,
            "PWM"@,
            "_TOP"@,
            p,
        ),
        call.function == "dma_channel_configure"@ ==> index_said(
            hal_check::calls_outcome(model, seq![call]),
            model,
            call,
            "DMA"@,
            "_CTRL_TRIG"@,
            p,
        ),
{
    lemma_one_call(model, call);
    lemma_functions();
    lemma_index_said(model, call, "PWM"@, "_TOP"@, p);
    lemma_index_said(model, call, "DMA"@, "_CTRL_TRIG"@, p);
}

/// The level of a PWM channel is checked as the slice is, and then the channel: it is
/// reported exactly if it is neither 0 nor 1.
pub proof fn pwm_channels_are_zero_and_one(model: ModelView, call: HalCallView, p: PeripheralView)
    requires
        call.function == "pwm_set_chan_level"@,
    ensures
        ({
            let out = hal_check::calls_outcome(model, seq![call]);
            exists|slice: CheckResultView, channel: CheckResultView|
                {
                    &&& out.findings == slice.findings + channel.findings
                    &&& out.notes == slice.notes + channel.notes
                    &&& index_said(slice, model, call, "PWM"@, "_TOP"@, p)
                    &&& channel_said(channel, call)
                }
        }),
{
    lemma_one_call(model, call);
    lemma_functions();
    lemma_index_said(model, call, "PWM"@, "_TOP"@, p);
    let slice = hal_check::channel_outcome(model, call, "PWM"@, "_TOP"@);
    let channel = hal_check::pwm_channel_outcome(call);
    if call.args.len() > 1 && call.args[1] is Some {
        lemma_found(
            call,
            FindingKindView::HalCallIndexOutOfRange {
                function: call.function,
                arg_index: 1,
                index: call.args[1]->0,
                evidence: IndexEvidenceView::NoSuchPwmChannel,
            },
        );
    }
    assert(channel_said(channel, call));
    let out = hal_check::calls_outcome(model, seq![call]);
    assert(out.findings == slice.findings + channel.findings && out.notes == slice.notes + channel.notes);
}

/// What is said of a PWM channel.
pub open spec fn channel_said(out: CheckResultView, call: HalCallView) -> bool {
    if call.args.len() < 2 {
        silent(out)
    } else {
        match call.args[1] {
            None => only_unknown(out, call, 1),
            Some(channel) => if channel == 0 || channel == 1 {
                silent(out)
            } else {
                only_finds(
                    out,
                    call,
                    FindingKindView::HalCallIndexOutOfRange {
                        function: call.function,
                        arg_index: 1,
                        index: channel,
                        evidence: IndexEvidenceView::NoSuchPwmChannel,
                    },
                )
            },
        }
    }
}

/// An ADC input is reported exactly if it has a one past the width of the field AINSEL of
/// the register CS of the ADC.
pub proof fn adc_inputs_fit_their_field(
    model: ModelView,
    call: HalCallView,
    p: PeripheralView,
    r: RegisterView,
    k: int,
)
    requires
        call.function == "adc_select_input"@,
        write_laws::is_peripheral(model, "ADC"@, p),
        write_laws::is_register(p, "CS"@, r),
        0 <= k < r.fields.len(),
        r.fields[k].name == "AINSEL"@,
        forall|j: int| 0 <= j < k ==> (#[trigger] r.fields[j]).name != "AINSEL"@,
    ensures
        ({
            let out = hal_check::calls_outcome(model, seq![call]);
            if call.args.len() == 0 {
                silent(out)
            } else {
                match call.args[0] {
                    None => only_unknown(out, call, 0),
                    Some(index) => if exists|i: u32| r.fields[k].bit_width <= i && #[trigger] bits::bit(index, i) {
                        only_finds(
                            out,
                            call,
                            FindingKindView::HalCallIndexOutOfRange {
                                function: call.function,
                                arg_index: 0,
                                index,
                                evidence: IndexEvidenceView::FieldTooNarrow {
                                    peripheral: "ADC"@,
                                    register: "CS"@,
                                    field: "AINSEL"@,
                                    bit_width: r.fields[k].bit_width,
                                },
                            },
                        )
                    } else {
                        silent(out)
                    },
                }
            }
        }),
{
    lemma_one_call(model, call);
    lemma_functions();
    lemma_field_is(model, "ADC"@, "CS"@, "AINSEL"@, p, r, k);
    if call.args.len() > 0 {
        if let Some(index) = call.args[0] {
            write_laws::values_fit_without_higher_bits(index, r.fields[k].bit_width);
            lemma_found(
                call,
                FindingKindView::HalCallIndexOutOfRange {
                    function: call.function,
                    arg_index: 0,
                    index,
                    evidence: IndexEvidenceView::FieldTooNarrow {
                        peripheral: "ADC"@,
                        register: "CS"@,
                        field: "AINSEL"@,
                        bit_width: r.fields[k].bit_width,
                    },
                },
            );
            if exists|i: u32| r.fields[k].bit_width <= i && #[trigger] bits::bit(index, i) {
                assert(!checker::fits(index, r.fields[k].bit_width));
            }
        }
    }
}

/// Of a call of any other function nothing is said.
pub proof fn other_calls_are_passed_over(model: ModelView, call: HalCallView)
    requires
        call.function != "gpio_set_function"@ && call.function != "gpio_init"@ && call.function != "gpio_put"@,
        call.function != "gpio_set_dir"@ && call.function != "uart_init"@ && call.function != "spi_init"@,
        call.function != "i2c_init"@ && call.function != "pwm_set_wrap"@ && call.function != "pwm_set_chan_level"@,
        call.function != "dma_channel_configure"@ && call.function != "adc_select_input"@,
    ensures
        silent(hal_check::calls_outcome(model, seq![call])),
{
    lemma_one_call(model, call);
}

} // verus!
