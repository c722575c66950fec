//! Calls of Pico SDK functions against the device model.

use vstd::prelude::*;

use crate::checker;
use crate::finding::{
    CheckResult, CheckResultView, Finding, FindingKind, FindingKindView, FindingView, IndexEvidence,
    IndexEvidenceView, Note, NoteView, Noted, NotedView,
};
use crate::fw_parse::{HalCall, HalCallView};
use crate::svd_model::{Model, ModelView};
use crate::text;

verus! {

broadcast use {crate::text::group_views, crate::finding::group_outcomes};

/// The RP2040 has GPIO0 to GPIO29.
pub const RP2040_GPIO_COUNT: u64 = 30;

// ── What is reported ─────────────────────────────────────────────────────────

/// A call as it stands in the source.
pub open spec fn call_text(call: HalCallView) -> Seq<char> {
    call.function + "("@ + text::join(call.raw_args, ", "@) + ")"@
}

/// One finding about a call, and nothing else.
pub open spec fn found(call: HalCallView, kind: FindingKindView) -> CheckResultView {
    CheckResultView {
        findings: seq![
            FindingView {
                kind,
                severity: kind.severity(),
                file: call.file,
                line: call.line,
                raw_lhs: call_text(call),
                raw_op: ""@,
                raw_rhs: Seq::empty(),
            },
        ],
        notes: Seq::empty(),
    }
}

/// One note about a call, and nothing else.
pub open spec fn remarked(call: HalCallView, note: NoteView) -> CheckResultView {
    CheckResultView {
        findings: Seq::empty(),
        notes: seq![NotedView { note, file: call.file, line: call.line }],
    }
}

/// The note that the argument at `i` is no constant.
pub open spec fn unknown_argument(call: HalCallView, i: usize) -> CheckResultView {
    remarked(call, NoteView::HalCallArgUnknown { function: call.function, arg_index: i })
}

/// The argument at `i`: `None` where there is none, `Some(None)` where it is no constant.
pub open spec fn argument(call: HalCallView, i: usize) -> Option<Option<u64>> {
    if i < call.args.len() {
        Some(call.args[i as int])
    } else {
        None
    }
}

/// The pin must be one that the chip has.
pub open spec fn pin_outcome(call: HalCallView) -> CheckResultView {
    match argument(call, 0) {
        None => CheckResultView::nothing(),
        Some(None) => unknown_argument(call, 0),
        Some(Some(pin)) => if pin < RP2040_GPIO_COUNT {
            CheckResultView::nothing()
        } else {
            found(call, FindingKindView::HalCallPinOutOfRange { function: call.function, pin })
        },
    }
}

/// The register that selects the function of a pin.
pub open spec fn pin_register(pin: u64) -> Seq<char> {
    "GPIO"@ + text::decimal(pin as nat) + "_CTRL"@
}

/// The function of a pin must be one that the SVD lists in the pin's FUNCSEL field.
pub open spec fn funcsel_outcome(model: ModelView, call: HalCallView, pin: u64, func: u64) -> CheckResultView {
    match model.field("IO_BANK0"@, pin_register(pin), "FUNCSEL"@) {
        None => CheckResultView::nothing(),
        Some(field) => match field.allowed_values {
            None => remarked(
                call,
                NoteView::FieldUnverifiableNoEnum {
                    peripheral: "IO_BANK0"@,
                    register: pin_register(pin),
                    field: "FUNCSEL"@,
                },
            ),
            Some(allowed) => if checker::lists(allowed, func) {
                CheckResultView::nothing()
            } else {
                found(call, FindingKindView::HalCallFuncselNotInEnum { pin, func, allowed })
            },
        },
    }
}

pub open spec fn set_function_outcome(model: ModelView, call: HalCallView) -> CheckResultView {
    match argument(call, 0) {
        None => CheckResultView::nothing(),
        Some(None) => unknown_argument(call, 0),
        Some(Some(pin)) => if pin >= RP2040_GPIO_COUNT {
            found(call, FindingKindView::HalCallPinOutOfRange { function: call.function, pin })
        } else {
            match argument(call, 1) {
                None => CheckResultView::nothing(),
                Some(None) => unknown_argument(call, 1),
                Some(Some(func)) => funcsel_outcome(model, call, pin, func),
            }
        },
    }
}

/// Whether `name` is a peripheral's kind followed by a number, such as `uart0`.
pub open spec fn is_instance(name: Seq<char>, kind: Seq<char>) -> bool {
    &&& kind.is_prefix_of(name)
    &&& name.len() > kind.len()
    &&& forall|i: int| kind.len() <= i < name.len() ==> '0' <= #[trigger] name[i] <= '9'
}

/// The instance must be a peripheral of the SVD. An argument that names no instance,
/// such as a variable, is not judged.
pub open spec fn instance_outcome(model: ModelView, call: HalCallView, kind: Seq<char>) -> CheckResultView {
    if call.raw_args.len() == 0 {
        CheckResultView::nothing()
    } else {
        let instance = call.raw_args[0];
        let peripheral = text::upper_case(instance);
        if !is_instance(instance, kind) {
            unknown_argument(call, 0)
        } else if model.peripheral(peripheral) is Some {
            CheckResultView::nothing()
        } else {
            found(
                call,
                FindingKindView::HalCallInstanceNotInSvd { function: call.function, instance, peripheral },
            )
        }
    }
}

/// The register of a peripheral's channel.
pub open spec fn channel_register(channel: u64, suffix: Seq<char>) -> Seq<char> {
    "CH"@ + text::decimal(channel as nat) + suffix
}

/// The channel that the first argument names must have its register in the SVD.
pub open spec fn channel_outcome(
    model: ModelView,
    call: HalCallView,
    peripheral: Seq<char>,
    suffix: Seq<char>,
) -> CheckResultView {
    match argument(call, 0) {
        None => CheckResultView::nothing(),
        Some(None) => unknown_argument(call, 0),
        Some(Some(index)) => if model.peripheral(peripheral) is None || model.register(
            peripheral,
            channel_register(index, suffix),
        ) is Some {
            CheckResultView::nothing()
        } else {
            found(
                call,
                FindingKindView::HalCallIndexOutOfRange {
                    function: call.function,
                    arg_index: 0,
                    index,
                    evidence: IndexEvidenceView::NoSuchRegister {
                        peripheral,
                        register: channel_register(index, suffix),
                    },
                },
            )
        },
    }
}

/// A PWM slice has the channels 0 and 1.
pub open spec fn pwm_channel_outcome(call: HalCallView) -> CheckResultView {
    match argument(call, 1) {
        None => CheckResultView::nothing(),
        Some(None) => unknown_argument(call, 1),
        Some(Some(index)) => if index < 2 {
            CheckResultView::nothing()
        } else {
            found(
                call,
                FindingKindView::HalCallIndexOutOfRange {
                    function: call.function,
                    arg_index: 1,
                    index,
                    evidence: IndexEvidenceView::NoSuchPwmChannel,
                },
            )
        },
    }
}

/// The ADC input must fit in the field that selects it.
pub open spec fn adc_outcome(model: ModelView, call: HalCallView) -> CheckResultView {
    match argument(call, 0) {
        None => CheckResultView::nothing(),
        Some(None) => unknown_argument(call, 0),
        Some(Some(index)) => match model.field("ADC"@, "CS"@, "AINSEL"@) {
            None => CheckResultView::nothing(),
            Some(field) => if checker::fits(index, field.bit_width) {
                CheckResultView::nothing()
            } else {
                found(
                    call,
                    FindingKindView::HalCallIndexOutOfRange {
                        function: call.function,
                        arg_index: 0,
                        index,
                        evidence: IndexEvidenceView::FieldTooNarrow {
                            peripheral: "ADC"@,
                            register: "CS"@,
                            field: "AINSEL"@,
                            bit_width: field.bit_width,
                        },
                    },
                )
            },
        },
    }
}

/// What there is to say of a call.
pub open spec fn call_outcome(model: ModelView, call: HalCallView) -> CheckResultView {
    let function = call.function;
    if function == "gpio_set_function"@ {
        set_function_outcome(model, call)
    } else if function == "gpio_init"@ || function == "gpio_put"@ || function == "gpio_set_dir"@ {
        pin_outcome(call)
    } else if function == "uart_init"@ {
        instance_outcome(model, call, "uart"@)
    } else if function == "spi_init"@ {
        instance_outcome(model, call, "spi"@)
    } else if function == "i2c_init"@ {
        instance_outcome(model, call, "i2c"@)
    } else if function == "pwm_set_wrap"@ {
        channel_outcome(model, call, "PWM"@, "_TOP"@)
    } else if function == "pwm_set_chan_level"@ {
        channel_outcome(model, call, "PWM"@, "_TOP"@).then_also(pwm_channel_outcome(call))
    } else if function == "dma_channel_configure"@ {
        channel_outcome(model, call, "DMA"@, "_CTRL_TRIG"@)
    } else if function == "adc_select_input"@ {
        adc_outcome(model, call)
    } else {
        CheckResultView::nothing()
    }
}

/// What there is to say of a list of calls, one after the other.
pub open spec fn calls_outcome(model: ModelView, calls: Seq<HalCallView>) -> CheckResultView
    decreases calls.len(),
{
    if calls.len() == 0 {
        CheckResultView::nothing()
    } else {
        calls_outcome(model, calls.drop_last()).then_also(call_outcome(model, calls.last()))
    }
}

// ── The check ────────────────────────────────────────────────────────────────

/// Checks Pico SDK calls against the model.
///
/// - `gpio_init(pin)`, `gpio_put(pin, value)`, `gpio_set_dir(pin, dir)`: the pin is one
///   of GPIO0 to GPIO29.
/// - `gpio_set_function(pin, func)`: so is the pin, and the function is in the FUNCSEL
///   enumeration of that pin.
/// - `uart_init`, `spi_init`, `i2c_init`: the instance is a peripheral of the SVD.
/// - `pwm_set_wrap`, `pwm_set_chan_level`, `dma_channel_configure`: the slice or channel
///   has its register in the SVD; a PWM channel is 0 or 1.
/// - `adc_select_input`: the input fits in the field ADC.CS.AINSEL.
pub fn check_hal_calls(model: &Model, calls: &[HalCall]) -> (r: CheckResult)
    ensures
        r@ == calls_outcome(model@, text::views(calls@)),
{
    let ghost all = text::views(calls@);
    let mut result = CheckResult::default();
    let mut i: usize = 0;
    while i < calls.len()
        invariant
            i <= calls@.len(),
            all == text::views(calls@),
            result@ == calls_outcome(model@, all.take(i as int)),
        decreases calls.len() - i,
    {
        assert(all.take(i + 1).drop_last() =~= all.take(i as int));
        assert(all.take(i + 1).last() == calls@[i as int]@);
        check_hal_one(model, &calls[i], &mut result);
        i += 1;
    }
    assert(all.take(all.len() as int) =~= all);
    result
}

fn check_hal_one(model: &Model, call: &HalCall, result: &mut CheckResult)
    ensures
        final(result)@ == old(result)@.then_also(call_outcome(model@, call@)),
{
    let function = call.function.as_str();
    if text::same_text(function, "gpio_set_function") {
        check_gpio_set_function(model, call, result);
    } else if text::same_text(function, "gpio_init") || text::same_text(function, "gpio_put") || text::same_text(
        function,
        "gpio_set_dir",
    ) {
        check_gpio_pin_range(call, result);
    } else if text::same_text(function, "uart_init") {
        check_instance(model, call, "uart", result);
    } else if text::same_text(function, "spi_init") {
        check_instance(model, call, "spi", result);
    } else if text::same_text(function, "i2c_init") {
        check_instance(model, call, "i2c", result);
    } else if text::same_text(function, "pwm_set_wrap") {
        check_channel(model, call, "PWM", "_TOP", result);
    } else if text::same_text(function, "pwm_set_chan_level") {
        check_channel(model, call, "PWM", "_TOP", result);
        check_pwm_channel(call, result);
    } else if text::same_text(function, "dma_channel_configure") {
        check_channel(model, call, "DMA", "_CTRL_TRIG", result);
    } else if text::same_text(function, "adc_select_input") {
        check_adc_input(model, call, result);
    }
}

fn argument_of(call: &HalCall, i: usize) -> (r: Option<Option<u64>>)
    ensures
        r == argument(call@, i),
{
    if i < call.args.len() {
        Some(call.args[i])
    } else {
        None
    }
}

fn check_gpio_pin_range(call: &HalCall, result: &mut CheckResult)
    ensures
        final(result)@ == old(result)@.then_also(pin_outcome(call@)),
{
    match argument_of(call, 0) {
        None => {},
        Some(None) => argument_unknown(result, call, 0),
        Some(Some(pin)) => {
            if pin >= RP2040_GPIO_COUNT {
                hal_finding(
                    result,
                    call,
                    FindingKind::HalCallPinOutOfRange { function: call.function.clone(), pin },
                );
            }
        },
    }
}

fn check_gpio_set_function(model: &Model, call: &HalCall, result: &mut CheckResult)
    ensures
        final(result)@ == old(result)@.then_also(set_function_outcome(model@, call@)),
{
    let pin: u64 = match argument_of(call, 0) {
        None => {
            return;
        },
        Some(None) => {
            argument_unknown(result, call, 0);
            return;
        },
        Some(Some(pin)) => pin,
    };
    if pin >= RP2040_GPIO_COUNT {
        hal_finding(result, call, FindingKind::HalCallPinOutOfRange { function: call.function.clone(), pin });
        return;
    }
    let func: u64 = match argument_of(call, 1) {
        None => {
            return;
        },
        Some(None) => {
            argument_unknown(result, call, 1);
            return;
        },
        Some(Some(func)) => func,
    };
    let register = "GPIO".to_owned().concat(text::decimal_text(pin).as_str()).concat("_CTRL");
    match model.field("IO_BANK0", register.as_str(), "FUNCSEL") {
        None => {},
        Some(field) => match &field.allowed_values {
            None => hal_note(
                result,
                call,
                Note::FieldUnverifiableNoEnum {
                    peripheral: "IO_BANK0".to_owned(),
                    register,
                    field: "FUNCSEL".to_owned(),
                },
            ),
            Some(allowed) => {
                if !checker::contains_value(allowed, func) {
                    hal_finding(
                        result,
                        call,
                        FindingKind::HalCallFuncselNotInEnum {
                            pin,
                            func,
                            allowed: crate::svd_model::clone_enum_values(allowed),
                        },
                    );
                }
            },
        },
    }
}

fn is_instance_name(name: &str, kind: &str) -> (r: bool)
    ensures
        r == is_instance(name@, kind@),
{
    if !text::starts_with_text(name, kind) {
        return false;
    }
    let n: usize = name.unicode_len();
    let mut i: usize = kind.unicode_len();
    if i == n {
        return false;
    }
    while i < n
        invariant
            n == name@.len(),
            kind@.len() <= i <= n,
            kind@.is_prefix_of(name@),
            forall|j: int| kind@.len() <= j < i ==> '0' <= #[trigger] name@[j] <= '9',
        decreases n - i,
    {
        let c = name.get_char(i);
        if !('0' <= c && c <= '9') {
            return false;
        }
        i += 1;
    }
    true
}

fn check_instance(model: &Model, call: &HalCall, kind: &str, result: &mut CheckResult)
    ensures
        final(result)@ == old(result)@.then_also(instance_outcome(model@, call@, kind@)),
{
    if call.raw_args.len() == 0 {
        return;
    }
    let instance = call.raw_args[0].as_str();
    assert(call@.raw_args[0] == instance@);
    if !is_instance_name(instance, kind) {
        argument_unknown(result, call, 0);
        return;
    }
    let peripheral = text::upper_case_text(instance);
    if model.peripheral(peripheral.as_str()).is_none() {
        hal_finding(
            result,
            call,
            FindingKind::HalCallInstanceNotInSvd {
                function: call.function.clone(),
                instance: instance.to_owned(),
                peripheral,
            },
        );
    }
}

fn check_channel(model: &Model, call: &HalCall, peripheral: &str, suffix: &str, result: &mut CheckResult)
    ensures
        final(result)@ == old(result)@.then_also(channel_outcome(model@, call@, peripheral@, suffix@)),
{
    match argument_of(call, 0) {
        None => {},
        Some(None) => argument_unknown(result, call, 0),
        Some(Some(index)) => {
            let register = "CH".to_owned().concat(text::decimal_text(index).as_str()).concat(suffix);
            if model.peripheral(peripheral).is_some() && model.register(peripheral, register.as_str()).is_none() {
                hal_finding(
                    result,
                    call,
                    FindingKind::HalCallIndexOutOfRange {
                        function: call.function.clone(),
                        arg_index: 0,
                        index,
                        evidence: IndexEvidence::NoSuchRegister { peripheral: peripheral.to_owned(), register },
                    },
                );
            }
        },
    }
}

fn check_pwm_channel(call: &HalCall, result: &mut CheckResult)
    ensures
        final(result)@ == old(result)@.then_also(pwm_channel_outcome(call@)),
{
    match argument_of(call, 1) {
        None => {},
        Some(None) => argument_unknown(result, call, 1),
        Some(Some(index)) => {
            if index >= 2 {
                hal_finding(
                    result,
                    call,
                    FindingKind::HalCallIndexOutOfRange {
                        function: call.function.clone(),
                        arg_index: 1,
                        index,
                        evidence: IndexEvidence::NoSuchPwmChannel,
                    },
                );
            }
        },
    }
}

fn check_adc_input(model: &Model, call: &HalCall, result: &mut CheckResult)
    ensures
        final(result)@ == old(result)@.then_also(adc_outcome(model@, call@)),
{
    match argument_of(call, 0) {
        None => {},
        Some(None) => argument_unknown(result, call, 0),
        Some(Some(index)) => match model.field("ADC", "CS", "AINSEL") {
            None => {},
            Some(field) => {
                if field.bit_width < 64 && index >= (1u64 << field.bit_width) {
                    hal_finding(
                        result,
                        call,
                        FindingKind::HalCallIndexOutOfRange {
                            function: call.function.clone(),
                            arg_index: 0,
                            index,
                            evidence: IndexEvidence::FieldTooNarrow {
                                peripheral: "ADC".to_owned(),
                                register: "CS".to_owned(),
                                field: "AINSEL".to_owned(),
                                bit_width: field.bit_width,
                            },
                        },
                    );
                }
            },
        },
    }
}

fn hal_finding(result: &mut CheckResult, call: &HalCall, kind: FindingKind)
    ensures
        final(result)@ == old(result)@.then_also(found(call@, kind@)),
{
    let ghost before = result@;
    let severity = kind.severity();
    let raw_lhs = call.function.clone().concat("(").concat(text::join_text(&call.raw_args, ", ").as_str()).concat(
        ")",
    );
    let finding = Finding {
        kind,
        severity,
        file: call.file.clone(),
        line: call.line,
        raw_lhs,
        raw_op: "",
        raw_rhs: String::new(),
    };
    result.findings.push(finding);
    assert(result@.findings =~= before.then_also(found(call@, kind@)).findings);
    assert(result@.notes =~= before.then_also(found(call@, kind@)).notes);
}

fn hal_note(result: &mut CheckResult, call: &HalCall, note: Note)
    ensures
        final(result)@ == old(result)@.then_also(remarked(call@, note@)),
{
    let ghost before = result@;
    result.notes.push(Noted { note, file: call.file.clone(), line: call.line });
    assert(result@.findings =~= before.then_also(remarked(call@, note@)).findings);
    assert(result@.notes =~= before.then_also(remarked(call@, note@)).notes);
}

fn argument_unknown(result: &mut CheckResult, call: &HalCall, i: usize)
    ensures
        final(result)@ == old(result)@.then_also(unknown_argument(call@, i)),
{
    hal_note(result, call, Note::HalCallArgUnknown { function: call.function.clone(), arg_index: i });
}

} // verus!
