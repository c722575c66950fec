//! What holds of every check.

use vstd::prelude::*;

use crate::bits;
use crate::checker;
use crate::finding;
use crate::finding::{CheckResultView, FindingKindView, FindingView, IndexEvidenceView, NotedView, Severity};
use crate::fw_parse;
use crate::fw_parse::{AssignOp, HalCallView, RegisterAccessView, TargetView};
use crate::hal_check;
use crate::svd::Access;
use crate::svd_model;
use crate::svd_model::{AddressLookupView, EnumValueView, FieldView, ModelView, PeripheralView, RegisterView};
use crate::text;

verus! {

broadcast use crate::finding::group_outcomes;

// ── Lookups find what the model holds ────────────────────────────────────────

/// Whether the model has a peripheral named `peripheral` with the register `register`.
pub open spec fn has_register(model: ModelView, peripheral: Seq<char>, register: RegisterView) -> bool {
    exists|i: int, j: int|
        #![trigger model.peripherals[i].registers[j]]
        0 <= i < model.peripherals.len() && 0 <= j < model.peripherals[i].registers.len()
            && model.peripherals[i].name == peripheral && model.peripherals[i].registers[j] == register
}

/// Whether a register has the field `field`.
pub open spec fn has_field(register: RegisterView, field: FieldView) -> bool {
    exists|i: int| 0 <= i < register.fields.len() && #[trigger] register.fields[i] == field
}

proof fn lemma_peripheral_found(peripherals: Seq<PeripheralView>, name: Seq<char>)
    ensures
        svd_model::find_peripheral(peripherals, name) matches Some(p) ==> p.name == name && exists|i: int|
            0 <= i < peripherals.len() && #[trigger] peripherals[i] == p,
    decreases peripherals.len(),
{
    if peripherals.len() > 0 {
        if peripherals.last().name == name {
            assert(peripherals[peripherals.len() - 1] == peripherals.last());
        } else {
            let rest = peripherals.drop_last();
            lemma_peripheral_found(rest, name);
            if let Some(p) = svd_model::find_peripheral(rest, name) {
                let i = choose|i: int| 0 <= i < rest.len() && #[trigger] rest[i] == p;
                assert(peripherals[i] == p);
            }
        }
    }
}

proof fn lemma_register_found(registers: Seq<RegisterView>, name: Seq<char>)
    ensures
        match svd_model::find_register(registers, name) {
            Some(r) => r.name == name && exists|i: int| 0 <= i < registers.len() && #[trigger] registers[i] == r,
            None => forall|i: int| 0 <= i < registers.len() ==> (#[trigger] registers[i]).name != name,
        },
    decreases registers.len(),
{
    if registers.len() > 0 && registers[0].name != name {
        let rest = registers.drop_first();
        lemma_register_found(rest, name);
        match svd_model::find_register(rest, name) {
            Some(r) => {
                let i = choose|i: int| 0 <= i < rest.len() && #[trigger] rest[i] == r;
                assert(registers[i + 1] == r);
            },
            None => {
                assert forall|i: int| 0 <= i < registers.len() implies (#[trigger] registers[i]).name != name by {
                    if i > 0 {
                        assert(rest[i - 1] == registers[i]);
                    }
                }
            },
        }
    }
}

proof fn lemma_field_found(fields: Seq<FieldView>, name: Seq<char>)
    ensures
        svd_model::find_field(fields, name) matches Some(f) ==> f.name == name && exists|i: int|
            0 <= i < fields.len() && #[trigger] fields[i] == f,
    decreases fields.len(),
{
    if fields.len() > 0 && fields[0].name != name {
        let rest = fields.drop_first();
        lemma_field_found(rest, name);
        if let Some(f) = svd_model::find_field(rest, name) {
            let i = choose|i: int| 0 <= i < rest.len() && #[trigger] rest[i] == f;
            assert(fields[i + 1] == f);
        }
    }
}

proof fn lemma_register_at(registers: Seq<RegisterView>, base: u64, address: u64)
    ensures
        match svd_model::find_register_at(registers, base, address) {
            Some(r) => base + r.address_offset == address && exists|i: int|
                0 <= i < registers.len() && #[trigger] registers[i] == r,
            None => forall|i: int|
                0 <= i < registers.len() ==> base + (#[trigger] registers[i]).address_offset != address,
        },
    decreases registers.len(),
{
    if registers.len() > 0 && base + registers[0].address_offset != address {
        let rest = registers.drop_first();
        lemma_register_at(rest, base, address);
        match svd_model::find_register_at(rest, base, address) {
            Some(r) => {
                let i = choose|i: int| 0 <= i < rest.len() && #[trigger] rest[i] == r;
                assert(registers[i + 1] == r);
            },
            None => {
                assert forall|i: int| 0 <= i < registers.len() implies base + (
                #[trigger] registers[i]).address_offset != address by {
                    if i > 0 {
                        assert(rest[i - 1] == registers[i]);
                    }
                }
            },
        }
    }
}

/// Whether no register of these peripherals starts at `address`.
pub open spec fn no_register_at(peripherals: Seq<PeripheralView>, address: u64) -> bool {
    forall|i: int, j: int|
        #![trigger peripherals[i].registers[j]]
        0 <= i < peripherals.len() && 0 <= j < peripherals[i].registers.len() ==> peripherals[i].base_address
            + peripherals[i].registers[j].address_offset != address
}

proof fn lemma_found_at(peripherals: Seq<PeripheralView>, address: u64)
    ensures
        match svd_model::find_at(peripherals, address) {
            Some((p, r)) => p.base_address + r.address_offset == address && exists|i: int, j: int|
                #![trigger peripherals[i].registers[j]]
                0 <= i < peripherals.len() && 0 <= j < peripherals[i].registers.len() && peripherals[i] == p
                    && peripherals[i].registers[j] == r,
            None => no_register_at(peripherals, address),
        },
    decreases peripherals.len(),
{
    if peripherals.len() > 0 {
        let first = peripherals[0];
        let rest = peripherals.drop_first();
        lemma_register_at(first.registers, first.base_address, address);
        match svd_model::find_register_at(first.registers, first.base_address, address) {
            Some(r) => {
                let j = choose|j: int| 0 <= j < first.registers.len() && #[trigger] first.registers[j] == r;
                assert(peripherals[0].registers[j] == r);
            },
            None => {
                lemma_found_at(rest, address);
                match svd_model::find_at(rest, address) {
                    Some((p, r)) => {
                        let (i, j) = choose|i: int, j: int|
                            #![trigger rest[i].registers[j]]
                            0 <= i < rest.len() && 0 <= j < rest[i].registers.len() && rest[i] == p
                                && rest[i].registers[j] == r;
                        assert(peripherals[i + 1].registers[j] == r);
                    },
                    None => {
                        assert forall|i: int, j: int|
                            #![trigger peripherals[i].registers[j]]
                            0 <= i < peripherals.len() && 0 <= j
                                < peripherals[i].registers.len() implies peripherals[i].base_address
                            + peripherals[i].registers[j].address_offset != address by {
                            if i > 0 {
                                assert(rest[i - 1].registers[j] == peripherals[i].registers[j]);
                            }
                        }
                    },
                }
            },
        }
    }
}

proof fn lemma_covering(peripherals: Seq<PeripheralView>, address: u64)
    ensures
        match svd_model::find_covering(peripherals, address) {
            Some(p) => p.covers(address) && exists|i: int|
                0 <= i < peripherals.len() && #[trigger] peripherals[i] == p,
            None => forall|i: int| 0 <= i < peripherals.len() ==> !(#[trigger] peripherals[i]).covers(address),
        },
    decreases peripherals.len(),
{
    if peripherals.len() > 0 && !peripherals[0].covers(address) {
        let rest = peripherals.drop_first();
        lemma_covering(rest, address);
        match svd_model::find_covering(rest, address) {
            Some(p) => {
                let i = choose|i: int| 0 <= i < rest.len() && #[trigger] rest[i] == p;
                assert(peripherals[i + 1] == p);
            },
            None => {
                assert forall|i: int| 0 <= i < peripherals.len() implies !(#[trigger] peripherals[i]).covers(
                    address,
                ) by {
                    if i > 0 {
                        assert(rest[i - 1] == peripherals[i]);
                    }
                }
            },
        }
    }
}

/// An address resolves to a register exactly if some register starts there, to a
/// peripheral exactly if none does and some address block holds it, and to nothing
/// otherwise.
pub proof fn address_resolution(model: ModelView, address: u64)
    ensures
        match model.resolve_address(address) {
            AddressLookupView::Register(p, r) => has_register(model, p.name, r) && p.base_address
                + r.address_offset == address,
            AddressLookupView::WithinPeripheral(p) => no_register_at(model.peripherals, address) && p.covers(address)
                && exists|i: int| 0 <= i < model.peripherals.len() && #[trigger] model.peripherals[i] == p,
            AddressLookupView::Unmapped => no_register_at(model.peripherals, address) && forall|i: int|
                0 <= i < model.peripherals.len() ==> !(#[trigger] model.peripherals[i]).covers(address),
        },
{
    lemma_found_at(model.peripherals, address);
    lemma_covering(model.peripherals, address);
    if let AddressLookupView::Register(p, r) = model.resolve_address(address) {
        let (i, j) = choose|i: int, j: int|
            #![trigger model.peripherals[i].registers[j]]
            0 <= i < model.peripherals.len() && 0 <= j < model.peripherals[i].registers.len()
                && model.peripherals[i] == p && model.peripherals[i].registers[j] == r;
        assert(model.peripherals[i].registers[j] == r);
    }
}

// ── Every finding rests on the SVD ───────────────────────────────────────────

/// Whether the model has such a register, of that many bits.
pub open spec fn register_of_width(model: ModelView, peripheral: Seq<char>, name: Seq<char>, size_bits: u32) -> bool {
    exists|r: RegisterView| #[trigger] has_register(model, peripheral, r) && r.name == name && r.size_bits == size_bits
}

/// Whether the model has such a register, whose fields have these bits.
pub open spec fn register_of_mask(model: ModelView, peripheral: Seq<char>, name: Seq<char>, mask: u64) -> bool {
    exists|r: RegisterView| #[trigger]
        has_register(model, peripheral, r) && r.name == name && checker::defined_mask(r.fields) == mask
}

/// Whether the model has such a register, which is read-only.
pub open spec fn read_only_register(model: ModelView, peripheral: Seq<char>, name: Seq<char>) -> bool {
    exists|r: RegisterView| #[trigger]
        has_register(model, peripheral, r) && r.name == name && r.access == Access::ReadOnly
}

/// Whether the model has such a field, which is read-only.
pub open spec fn read_only_field(
    model: ModelView,
    peripheral: Seq<char>,
    register: Seq<char>,
    name: Seq<char>,
) -> bool {
    exists|r: RegisterView, f: FieldView| #[trigger]
        has_register(model, peripheral, r) && #[trigger] has_field(r, f) && r.name == register && f.name == name
            && f.access == Access::ReadOnly
}

/// Whether the model has such a field, with these enumerated values.
pub open spec fn field_of_values(
    model: ModelView,
    peripheral: Seq<char>,
    register: Seq<char>,
    name: Seq<char>,
    allowed: Seq<EnumValueView>,
) -> bool {
    exists|r: RegisterView, f: FieldView| #[trigger]
        has_register(model, peripheral, r) && #[trigger] has_field(r, f) && r.name == register && f.name == name
            && f.allowed_values == Some(allowed)
}

/// Whether what a finding claims is a fact of the model.
pub open spec fn grounded(model: ModelView, kind: FindingKindView) -> bool {
    match kind {
        FindingKindView::NonexistentRegister { peripheral, register } => model.peripheral(peripheral) matches Some(p)
            && forall|i: int| 0 <= i < p.registers.len() ==> (#[trigger] p.registers[i]).name != register,
        FindingKindView::AddressNotARegister { peripheral, address } => no_register_at(model.peripherals, address)
            && exists|i: int|
            0 <= i < model.peripherals.len() && (#[trigger] model.peripherals[i]).name == peripheral
                && model.peripherals[i].covers(address),
        FindingKindView::ValueExceedsRegisterWidth { peripheral, register, value, size_bits } => register_of_width(
            model,
            peripheral,
            register,
            size_bits,
        ) && !checker::fits(value, size_bits),
        FindingKindView::ValueSetsUndefinedBits { peripheral, register, value, defined_mask } => register_of_mask(
            model,
            peripheral,
            register,
            defined_mask,
        ) && value & !defined_mask != 0,
        FindingKindView::FieldValueNotInEnum { peripheral, register, field, value, allowed } => field_of_values(
            model,
            peripheral,
            register,
            field,
            allowed,
        ) && !checker::lists(allowed, value),
        FindingKindView::WriteToReadOnlyRegister { peripheral, register } => read_only_register(
            model,
            peripheral,
            register,
        ),
        FindingKindView::WriteToReadOnlyField { peripheral, register, field } => read_only_field(
            model,
            peripheral,
            register,
            field,
        ),
        FindingKindView::HalCallPinOutOfRange { pin, .. } => pin >= hal_check::RP2040_GPIO_COUNT,
        FindingKindView::HalCallFuncselNotInEnum { pin, func, allowed } => model.field(
            "IO_BANK0"@,
            hal_check::pin_register(pin),
            "FUNCSEL"@,
        ) matches Some(f) && f.allowed_values == Some(allowed) && !checker::lists(allowed, func),
        FindingKindView::HalCallIndexOutOfRange { index, evidence, .. } => match evidence {
            IndexEvidenceView::NoSuchRegister { peripheral, register } => model.peripheral(peripheral) is Some
                && model.register(peripheral, register) is None,
            IndexEvidenceView::FieldTooNarrow { peripheral, register, field, bit_width } => model.field(
                peripheral,
                register,
                field,
            ) matches Some(f) && f.bit_width == bit_width && !checker::fits(index, bit_width),
            IndexEvidenceView::NoSuchPwmChannel => index >= 2,
        },
        FindingKindView::HalCallInstanceNotInSvd { instance, peripheral, .. } => peripheral == text::upper_case(
            instance,
        ) && model.peripheral(peripheral) is None,
    }
}

/// Where a finding comes from: a place, and the expression that stands there.
pub struct Origin {
    pub file: Seq<char>,
    pub line: usize,
    pub raw_lhs: Seq<char>,
    pub raw_op: Seq<char>,
    pub raw_rhs: Seq<char>,
}

pub open spec fn access_origin(access: RegisterAccessView) -> Origin {
    Origin {
        file: access.file,
        line: access.line,
        raw_lhs: access.raw_lhs,
        raw_op: checker::op_spelling(access.op),
        raw_rhs: access.raw_rhs,
    }
}

pub open spec fn call_origin(call: HalCallView) -> Origin {
    Origin {
        file: call.file,
        line: call.line,
        raw_lhs: hal_check::call_text(call),
        raw_op: ""@,
        raw_rhs: Seq::empty(),
    }
}

pub open spec fn finding_origin(f: FindingView) -> Origin {
    Origin { file: f.file, line: f.line, raw_lhs: f.raw_lhs, raw_op: f.raw_op, raw_rhs: f.raw_rhs }
}

/// Whether the findings of an outcome are grounded, carry the severity of their kind,
/// and have the given origin, and the notes its place.
pub open spec fn sound(model: ModelView, outcome: CheckResultView, origin: Origin) -> bool {
    &&& forall|i: int|
        0 <= i < outcome.findings.len() ==> {
            let f = #[trigger] outcome.findings[i];
            grounded(model, f.kind) && f.severity == f.kind.severity() && finding_origin(f) == origin
        }
    &&& forall|i: int|
        0 <= i < outcome.notes.len() ==> {
            let n = #[trigger] outcome.notes[i];
            n.file == origin.file && n.line == origin.line
        }
}

proof fn lemma_sound_then_also(model: ModelView, a: CheckResultView, b: CheckResultView, origin: Origin)
    requires
        sound(model, a, origin),
        sound(model, b, origin),
    ensures
        sound(model, a.then_also(b), origin),
{
    let both = a.then_also(b);
    assert forall|i: int| 0 <= i < both.findings.len() implies ({
        let f = #[trigger] both.findings[i];
        grounded(model, f.kind) && f.severity == f.kind.severity() && finding_origin(f) == origin
    }) by {
        if i < a.findings.len() {
            assert(both.findings[i] == a.findings[i]);
        } else {
            assert(both.findings[i] == b.findings[i - a.findings.len()]);
        }
    }
    assert forall|i: int| 0 <= i < both.notes.len() implies ({
        let n = #[trigger] both.notes[i];
        n.file == origin.file && n.line == origin.line
    }) by {
        if i < a.notes.len() {
            assert(both.notes[i] == a.notes[i]);
        } else {
            assert(both.notes[i] == b.notes[i - a.notes.len()]);
        }
    }
}

proof fn lemma_found_sound(model: ModelView, access: RegisterAccessView, kind: FindingKindView)
    requires
        grounded(model, kind),
    ensures
        sound(model, checker::found(access, kind), access_origin(access)),
{
}

proof fn lemma_fields_sound(
    model: ModelView,
    peripheral: Seq<char>,
    register: RegisterView,
    n: int,
    access: RegisterAccessView,
    value: u64,
)
    requires
        has_register(model, peripheral, register),
        0 <= n <= register.fields.len(),
    ensures
        sound(
            model,
            checker::fields_outcome(peripheral, register.name, register.fields.take(n), access, value),
            access_origin(access),
        ),
    decreases n,
{
    if n > 0 {
        lemma_fields_sound(model, peripheral, register, n - 1, access, value);
        assert(register.fields.take(n).drop_last() =~= register.fields.take(n - 1));
        let field = register.fields.take(n).last();
        assert(register.fields[n - 1] == field);
        assert(has_field(register, field));
        let a = checker::read_only_outcome(peripheral, register.name, field, access, value);
        let b = checker::membership_outcome(peripheral, register.name, field, access, value);
        if field.access == Access::ReadOnly {
            let kind = FindingKindView::WriteToReadOnlyField {
                peripheral,
                register: register.name,
                field: field.name,
            };
            assert(read_only_field(model, peripheral, register.name, field.name));
            lemma_found_sound(model, access, kind);
        }
        if let Some(allowed) = field.allowed_values {
            let field_value = bits::range_value(value, field.bit_offset, field.bit_width);
            if !checker::lists(allowed, field_value) {
                let kind = FindingKindView::FieldValueNotInEnum {
                    peripheral,
                    register: register.name,
                    field: field.name,
                    value: field_value,
                    allowed,
                };
                assert(field_of_values(model, peripheral, register.name, field.name, allowed));
                lemma_found_sound(model, access, kind);
            }
        }
        lemma_sound_then_also(model, a, b, access_origin(access));
        lemma_sound_then_also(
            model,
            checker::fields_outcome(peripheral, register.name, register.fields.take(n - 1), access, value),
            a.then_also(b),
            access_origin(access),
        );
    }
}

proof fn lemma_register_sound(
    model: ModelView,
    peripheral: Seq<char>,
    register: RegisterView,
    access: RegisterAccessView,
)
    requires
        has_register(model, peripheral, register),
    ensures
        sound(model, checker::register_outcome(peripheral, register, access), access_origin(access)),
{
    let read_only_kind = FindingKindView::WriteToReadOnlyRegister { peripheral, register: register.name };
    let read_only = if register.access == Access::ReadOnly {
        checker::found(access, read_only_kind)
    } else {
        CheckResultView::nothing()
    };
    if register.access == Access::ReadOnly {
        assert(read_only_register(model, peripheral, register.name));
        lemma_found_sound(model, access, read_only_kind);
    }
    if let Some(value) = access.value {
        if access.op == AssignOp::Assign || access.op == AssignOp::OrAssign {
            let width_kind = FindingKindView::ValueExceedsRegisterWidth {
                peripheral,
                register: register.name,
                value,
                size_bits: register.size_bits,
            };
            let width = if checker::fits(value, register.size_bits) {
                CheckResultView::nothing()
            } else {
                checker::found(access, width_kind)
            };
            if !checker::fits(value, register.size_bits) {
                assert(register_of_width(model, peripheral, register.name, register.size_bits));
                lemma_found_sound(model, access, width_kind);
            }
            if register.fields.len() > 0 {
                let mask = checker::defined_mask(register.fields);
                let undefined_kind = FindingKindView::ValueSetsUndefinedBits {
                    peripheral,
                    register: register.name,
                    value,
                    defined_mask: mask,
                };
                let undefined = if value & !mask == 0 {
                    CheckResultView::nothing()
                } else {
                    checker::found(access, undefined_kind)
                };
                if value & !mask != 0 {
                    assert(register_of_mask(model, peripheral, register.name, mask));
                    lemma_found_sound(model, access, undefined_kind);
                }
                lemma_fields_sound(model, peripheral, register, register.fields.len() as int, access, value);
                assert(register.fields.take(register.fields.len() as int) =~= register.fields);
                let fields = checker::fields_outcome(peripheral, register.name, register.fields, access, value);
                lemma_sound_then_also(model, width, undefined, access_origin(access));
                lemma_sound_then_also(model, width.then_also(undefined), fields, access_origin(access));
                lemma_sound_then_also(
                    model,
                    read_only,
                    width.then_also(undefined).then_also(fields),
                    access_origin(access),
                );
            }
        }
    }
}

proof fn lemma_access_sound(model: ModelView, access: RegisterAccessView)
    ensures
        sound(model, checker::access_outcome(model, access), access_origin(access)),
{
    match access.target {
        TargetView::StructField { peripheral, register } => {
            lemma_named_sound(model, peripheral, register, access);
        },
        TargetView::RegsMacro { peripheral, register: Some(register) } => {
            lemma_named_sound(model, peripheral, register, access);
        },
        TargetView::Address(address) => {
            address_resolution(model, address);
            if let AddressLookupView::Register(p, r) = model.resolve_address(address) {
                lemma_register_sound(model, p.name, r, access);
            }
        },
        _ => {},
    }
}

proof fn lemma_named_sound(
    model: ModelView,
    peripheral: Seq<char>,
    register: Seq<char>,
    access: RegisterAccessView,
)
    ensures
        sound(
            model,
            checker::named_outcome(model, peripheral, register, access),
            access_origin(access),
        ),
{
    lemma_peripheral_found(model.peripherals, peripheral);
    if let Some(p) = model.peripheral(peripheral) {
        let i = choose|i: int| 0 <= i < model.peripherals.len() && #[trigger] model.peripherals[i] == p;
        lemma_register_found(p.registers, register);
        if let Some(r) = svd_model::find_register(p.registers, register) {
            let j = choose|j: int| 0 <= j < p.registers.len() && #[trigger] p.registers[j] == r;
            assert(model.peripherals[i].registers[j] == r);
            lemma_register_sound(model, p.name, r, access);
        }
    }
}

proof fn lemma_call_sound(model: ModelView, call: HalCallView)
    ensures
        sound(model, hal_check::call_outcome(model, call), call_origin(call)),
{
    let a = hal_check::channel_outcome(model, call, "PWM"@, "_TOP"@);
    let b = hal_check::pwm_channel_outcome(call);
    assert(sound(model, a, call_origin(call)));
    assert(sound(model, b, call_origin(call)));
    lemma_sound_then_also(model, a, b, call_origin(call));
}

/// Every finding about register accesses claims a fact of the SVD, carries the
/// severity of its kind, and has the place and the expression of one of the accesses.
pub proof fn access_findings_are_grounded(model: ModelView, accesses: Seq<RegisterAccessView>, i: int)
    requires
        0 <= i < checker::accesses_outcome(model, accesses).findings.len(),
    ensures
        ({
            let f = checker::accesses_outcome(model, accesses).findings[i];
            &&& grounded(model, f.kind)
            &&& f.severity == f.kind.severity()
            &&& exists|k: int| 0 <= k < accesses.len() && access_origin(#[trigger] accesses[k]) == finding_origin(f)
        }),
    decreases accesses.len(),
{
    let rest = accesses.drop_last();
    let before = checker::accesses_outcome(model, rest);
    let last = checker::access_outcome(model, accesses.last());
    lemma_access_sound(model, accesses.last());
    let f = checker::accesses_outcome(model, accesses).findings[i];
    if i < before.findings.len() {
        access_findings_are_grounded(model, rest, i);
        assert(f == before.findings[i]);
        let k = choose|k: int| 0 <= k < rest.len() && access_origin(#[trigger] rest[k]) == finding_origin(f);
        assert(accesses[k] == rest[k]);
    } else {
        assert(f == last.findings[i - before.findings.len()]);
        assert(accesses[accesses.len() - 1] == accesses.last());
    }
}

/// Every finding about SDK calls claims a fact of the SVD or of the chip's pins,
/// carries the severity of its kind, and has the place and the text of one of the calls.
pub proof fn call_findings_are_grounded(model: ModelView, calls: Seq<HalCallView>, i: int)
    requires
        0 <= i < hal_check::calls_outcome(model, calls).findings.len(),
    ensures
        ({
            let f = hal_check::calls_outcome(model, calls).findings[i];
            &&& grounded(model, f.kind)
            &&& f.severity == f.kind.severity()
            &&& exists|k: int| 0 <= k < calls.len() && call_origin(#[trigger] calls[k]) == finding_origin(f)
        }),
    decreases calls.len(),
{
    let rest = calls.drop_last();
    let before = hal_check::calls_outcome(model, rest);
    let last = hal_check::call_outcome(model, calls.last());
    lemma_call_sound(model, calls.last());
    let f = hal_check::calls_outcome(model, calls).findings[i];
    if i < before.findings.len() {
        call_findings_are_grounded(model, rest, i);
        assert(f == before.findings[i]);
        let k = choose|k: int| 0 <= k < rest.len() && call_origin(#[trigger] rest[k]) == finding_origin(f);
        assert(calls[k] == rest[k]);
    } else {
        assert(f == last.findings[i - before.findings.len()]);
        assert(calls[calls.len() - 1] == calls.last());
    }
}

// ── Checking piece by piece ──────────────────────────────────────────────────

/// Checking two lists of accesses, one after the other, is checking them together.
pub proof fn access_checks_concatenate(
    model: ModelView,
    a: Seq<RegisterAccessView>,
    b: Seq<RegisterAccessView>,
)
    ensures
        checker::accesses_outcome(model, a + b) == checker::accesses_outcome(model, a).then_also(
            checker::accesses_outcome(model, b),
        ),
    decreases b.len(),
{
    if b.len() == 0 {
        assert(a + b =~= a);
    } else {
        assert((a + b).drop_last() =~= a + b.drop_last());
        access_checks_concatenate(model, a, b.drop_last());
    }
}

/// Checking two lists of calls, one after the other, is checking them together.
pub proof fn call_checks_concatenate(model: ModelView, a: Seq<HalCallView>, b: Seq<HalCallView>)
    ensures
        hal_check::calls_outcome(model, a + b) == hal_check::calls_outcome(model, a).then_also(
            hal_check::calls_outcome(model, b),
        ),
    decreases b.len(),
{
    if b.len() == 0 {
        assert(a + b =~= a);
    } else {
        assert((a + b).drop_last() =~= a + b.drop_last());
        call_checks_concatenate(model, a, b.drop_last());
    }
}

// ── What is uncertain is only noted ──────────────────────────────────────────

/// Whether the register that an access goes to cannot be told.
pub open spec fn target_unknown(model: ModelView, target: TargetView) -> bool {
    match target {
        TargetView::Unresolved => true,
        TargetView::RegsMacro { peripheral, register } => register is None || model.peripheral(peripheral) is None,
        TargetView::StructField { peripheral, .. } => model.peripheral(peripheral) is None,
        TargetView::Address(address) => no_register_at(model.peripherals, address) && forall|i: int|
            0 <= i < model.peripherals.len() ==> !(#[trigger] model.peripherals[i]).covers(address),
    }
}

/// An access whose register cannot be told gives exactly one note and no finding.
pub proof fn unknown_target_is_only_noted(model: ModelView, access: RegisterAccessView)
    requires
        target_unknown(model, access.target),
    ensures
        checker::access_outcome(model, access).findings.len() == 0,
        checker::access_outcome(model, access).notes.len() == 1,
{
    if let TargetView::Address(address) = access.target {
        address_resolution(model, address);
        match model.resolve_address(address) {
            AddressLookupView::Register(p, r) => {
                lemma_found_at(model.peripherals, address);
                let (i, j) = choose|i: int, j: int|
                    #![trigger model.peripherals[i].registers[j]]
                    0 <= i < model.peripherals.len() && 0 <= j < model.peripherals[i].registers.len()
                        && model.peripherals[i] == p && model.peripherals[i].registers[j] == r;
                assert(model.peripherals[i].base_address + model.peripherals[i].registers[j].address_offset
                    == address);
            },
            AddressLookupView::WithinPeripheral(p) => {},
            AddressLookupView::Unmapped => {},
        }
    }
}

/// Whether a finding judges where an access goes, and not the value that it writes.
pub open spec fn judges_target_only(kind: FindingKindView) -> bool {
    match kind {
        FindingKindView::NonexistentRegister { .. } => true,
        FindingKindView::AddressNotARegister { .. } => true,
        FindingKindView::WriteToReadOnlyRegister { .. } => true,
        _ => false,
    }
}

/// Where the value is not a constant, or the operator is neither `=` nor `|=`, no
/// finding judges the value, and if the register is known a note says so.
pub proof fn undeterminable_value_is_never_judged(model: ModelView, access: RegisterAccessView)
    requires
        access.value is None || (access.op != AssignOp::Assign && access.op != AssignOp::OrAssign),
    ensures
        ({
            let outcome = checker::access_outcome(model, access);
            &&& outcome.findings.len() <= 1
            &&& forall|i: int|
                0 <= i < outcome.findings.len() ==> judges_target_only((#[trigger] outcome.findings[i]).kind)
            &&& outcome.notes.len() == 0 ==> outcome.findings.len() == 1 && !(
            outcome.findings[0].kind is WriteToReadOnlyRegister)
        }),
{
}

/// Whether what a finding about a call says of an argument is what the call has there.
pub open spec fn about_known_arguments(call: HalCallView, kind: FindingKindView) -> bool {
    match kind {
        FindingKindView::HalCallPinOutOfRange { pin, .. } => hal_check::argument(call, 0) == Some(Some(pin)),
        FindingKindView::HalCallFuncselNotInEnum { pin, func, .. } => hal_check::argument(call, 0) == Some(Some(pin))
            && hal_check::argument(call, 1) == Some(Some(func)),
        FindingKindView::HalCallIndexOutOfRange { arg_index, index, .. } => hal_check::argument(call, arg_index)
            == Some(Some(index)),
        FindingKindView::HalCallInstanceNotInSvd { instance, .. } => call.raw_args.len() > 0 && call.raw_args[0]
            == instance,
        _ => false,
    }
}

/// No finding about a call is about an argument that is not known, whatever the other
/// arguments are: it tells the constant, or the instance, that stands there.
pub proof fn unknown_arguments_are_only_noted(model: ModelView, call: HalCallView, i: int)
    requires
        0 <= i < hal_check::call_outcome(model, call).findings.len(),
    ensures
        about_known_arguments(call, hal_check::call_outcome(model, call).findings[i].kind),
{
    let a = hal_check::channel_outcome(model, call, "PWM"@, "_TOP"@);
    let b = hal_check::pwm_channel_outcome(call);
    if i < a.findings.len() {
        assert(a.then_also(b).findings[i] == a.findings[i]);
    } else if i < a.findings.len() + b.findings.len() {
        assert(a.then_also(b).findings[i] == b.findings[i - a.findings.len()]);
    }
}

/// A call of which the instance is not written as one gives no finding.
pub proof fn unknown_instance_is_only_noted(model: ModelView, call: HalCallView, kind: Seq<char>)
    requires
        call.raw_args.len() > 0,
        !hal_check::is_instance(call.raw_args[0], kind),
    ensures
        hal_check::instance_outcome(model, call, kind).findings.len() == 0,
        hal_check::instance_outcome(model, call, kind).notes.len() == 1,
{
}

// ── Every mismatch is reported ───────────────────────────────────────────────

/// Whether the SVD allows what a write of `value` does to a field.
pub open spec fn field_acceptable(field: FieldView, op: AssignOp, value: u64) -> bool {
    &&& field.access == Access::ReadOnly ==> value & checker::mask_of(field) == 0
    &&& checker::field_value_known(field, op, value) ==> match field.allowed_values {
        Some(allowed) => checker::lists(
            allowed,
            bits::range_value(value, field.bit_offset, field.bit_width),
        ),
        None => true,
    }
}

/// Whether the SVD allows a write, as far as the write is known: the register can be
/// written, the value fits, its ones are in fields, and each field gets what it may.
pub open spec fn acceptable(register: RegisterView, op: AssignOp, value: Option<u64>) -> bool {
    &&& register.access != Access::ReadOnly
    &&& match value {
        Some(value) if op == AssignOp::Assign || op == AssignOp::OrAssign => {
            &&& checker::fits(value, register.size_bits)
            &&& register.fields.len() > 0 ==> value & !checker::defined_mask(register.fields) == 0
            &&& forall|i: int|
                0 <= i < register.fields.len() ==> field_acceptable(#[trigger] register.fields[i], op, value)
        },
        _ => true,
    }
}

proof fn lemma_fields_clean(
    peripheral: Seq<char>,
    register: Seq<char>,
    fields: Seq<FieldView>,
    access: RegisterAccessView,
    value: u64,
)
    ensures
        checker::fields_outcome(peripheral, register, fields, access, value).findings.len() == 0 <==> forall|i: int|
            0 <= i < fields.len() ==> field_acceptable(#[trigger] fields[i], access.op, value),
    decreases fields.len(),
{
    if fields.len() > 0 {
        let rest = fields.drop_last();
        lemma_fields_clean(peripheral, register, rest, access, value);
        assert(fields[fields.len() - 1] == fields.last());
        if forall|i: int| 0 <= i < fields.len() ==> field_acceptable(#[trigger] fields[i], access.op, value) {
            assert forall|i: int| 0 <= i < rest.len() implies field_acceptable(
                #[trigger] rest[i],
                access.op,
                value,
            ) by {
                assert(rest[i] == fields[i]);
            }
        }
        if forall|i: int| 0 <= i < rest.len() ==> field_acceptable(#[trigger] rest[i], access.op, value) {
            assert forall|i: int| 0 <= i < rest.len() implies field_acceptable(fields[i], access.op, value) by {
                assert(rest[i] == fields[i]);
            }
        }
    }
}

/// A write to a register gives no finding exactly if the SVD allows it.
pub proof fn write_is_clean_iff_acceptable(
    peripheral: Seq<char>,
    register: RegisterView,
    access: RegisterAccessView,
)
    ensures
        checker::register_outcome(peripheral, register, access).findings.len() == 0 <==> acceptable(
            register,
            access.op,
            access.value,
        ),
{
    if let Some(value) = access.value {
        lemma_fields_clean(peripheral, register.name, register.fields, access, value);
    }
}

/// A value sets undefined bits exactly if it has a one in the range of no field.
pub proof fn undefined_bits_iff_outside_all_fields(value: u64, fields: Seq<FieldView>)
    ensures
        value & !checker::defined_mask(fields) != 0 <==> exists|i: u32| #[trigger]
            bits::bit(value, i) && in_no_field(fields, i),
{
    let mask = checker::defined_mask(fields);
    bits::outside_mask_iff_bit(value, mask);
    assert forall|i: u32| #[trigger] bits::bit(value, i) implies bits::bit(mask, i) == !in_no_field(fields, i) by {
        lemma_mask_bit(fields, i);
    }
}

/// Whether bit `i` belongs to none of the fields.
pub open spec fn in_no_field(fields: Seq<FieldView>, i: u32) -> bool {
    forall|k: int|
        0 <= k < fields.len() ==> !((#[trigger] fields[k]).bit_offset <= i < fields[k].bit_offset
            + fields[k].bit_width)
}

/// The mask of the fields has the bits that are in one of them.
pub proof fn lemma_mask_bit(fields: Seq<FieldView>, i: u32)
    requires
        i < 64,
    ensures
        bits::bit(checker::defined_mask(fields), i) == !in_no_field(fields, i),
    decreases fields.len(),
{
    if fields.len() == 0 {
        assert(i < 64 ==> (0u64 >> i) & 1 != 1) by (bit_vector);
    } else {
        let rest = fields.drop_last();
        let last = fields.last();
        lemma_mask_bit(rest, i);
        bits::or_bits(checker::defined_mask(rest), checker::mask_of(last), i);
        bits::range_mask_bits(last.bit_offset, last.bit_width, i);
        assert(fields[fields.len() - 1] == last);
        if !in_no_field(rest, i) {
            let k = choose|k: int|
                0 <= k < rest.len() && (#[trigger] rest[k]).bit_offset <= i < rest[k].bit_offset + rest[k].bit_width;
            assert(fields[k] == rest[k]);
        }
        if in_no_field(rest, i) {
            assert forall|k: int| 0 <= k < rest.len() implies !((#[trigger] fields[k]).bit_offset <= i
                < fields[k].bit_offset + fields[k].bit_width) by {
                assert(fields[k] == rest[k]);
            }
        }
    }
}

/// Assigning to a register notes each field that has no enumeration.
pub proof fn unverifiable_fields_are_noted(
    peripheral: Seq<char>,
    register: Seq<char>,
    fields: Seq<FieldView>,
    access: RegisterAccessView,
    value: u64,
    k: int,
)
    requires
        access.op == AssignOp::Assign,
        0 <= k < fields.len(),
        fields[k].allowed_values is None,
    ensures
        checker::fields_outcome(peripheral, register, fields, access, value).notes.contains(
            NotedView {
                note: finding::NoteView::FieldUnverifiableNoEnum { peripheral, register, field: fields[k].name },
                file: access.file,
                line: access.line,
            },
        ),
    decreases fields.len(),
{
    let noted = NotedView {
        note: finding::NoteView::FieldUnverifiableNoEnum { peripheral, register, field: fields[k].name },
        file: access.file,
        line: access.line,
    };
    let rest = fields.drop_last();
    let before = checker::fields_outcome(peripheral, register, rest, access, value).notes;
    let last = checker::field_outcome(peripheral, register, fields.last(), access, value).notes;
    if k < rest.len() {
        unverifiable_fields_are_noted(peripheral, register, rest, access, value, k);
        let i = before.index_of(noted);
        assert((before + last)[i] == noted);
    } else {
        assert(last =~= seq![noted]);
        assert((before + last)[before.len() as int] == noted);
    }
}

// ── Spellings ────────────────────────────────────────────────────────────────

/// The spelling of an operator reads back as that operator, and nothing else does.
pub proof fn operators_read_back(op: AssignOp, s: Seq<char>)
    ensures
        fw_parse::assign_op(s) == Some(op) <==> s == checker::op_spelling(op),
{
    reveal_strlit("=");
    reveal_strlit("|=");
    reveal_strlit("&=");
    reveal_strlit("^=");
    reveal_strlit("+=");
    reveal_strlit("-=");
    reveal_strlit("*=");
    reveal_strlit("/=");
    reveal_strlit("%=");
    reveal_strlit("<<=");
    reveal_strlit(">>=");
    assert("|="@[0] == '|' && "&="@[0] == '&' && "^="@[0] == '^' && "+="@[0] == '+' && "-="@[0] == '-');
    assert("*="@[0] == '*' && "/="@[0] == '/' && "%="@[0] == '%' && "<<="@[0] == '<' && ">>="@[0] == '>');
}

/// The place of a kind in the list of all kinds.
pub open spec fn kind_index(kind: FindingKindView) -> int {
    match kind {
        FindingKindView::NonexistentRegister { .. } => 0,
        FindingKindView::AddressNotARegister { .. } => 1,
        FindingKindView::ValueExceedsRegisterWidth { .. } => 2,
        FindingKindView::ValueSetsUndefinedBits { .. } => 3,
        FindingKindView::FieldValueNotInEnum { .. } => 4,
        FindingKindView::WriteToReadOnlyRegister { .. } => 5,
        FindingKindView::WriteToReadOnlyField { .. } => 6,
        FindingKindView::HalCallPinOutOfRange { .. } => 7,
        FindingKindView::HalCallFuncselNotInEnum { .. } => 8,
        FindingKindView::HalCallIndexOutOfRange { .. } => 9,
        FindingKindView::HalCallInstanceNotInSvd { .. } => 10,
    }
}

/// Two findings have the same rule exactly if they are of the same kind, and then
/// they have the same severity.
pub proof fn rules_identify_kinds(a: FindingKindView, b: FindingKindView)
    ensures
        a.rule_id() == b.rule_id() <==> kind_index(a) == kind_index(b),
        a.rule_id() == b.rule_id() ==> a.severity() == b.severity(),
{
    reveal_strlit("nonexistent-register");
    reveal_strlit("address-not-a-register");
    reveal_strlit("value-exceeds-register-width");
    reveal_strlit("value-sets-undefined-bits");
    reveal_strlit("field-value-not-in-enum");
    reveal_strlit("write-to-read-only-register");
    reveal_strlit("write-to-read-only-field");
    reveal_strlit("hal-call-pin-out-of-range");
    reveal_strlit("hal-call-funcsel-not-in-enum");
    reveal_strlit("hal-call-index-out-of-range");
    reveal_strlit("hal-call-instance-not-in-svd");
    assert("nonexistent-register"@.len() == 20);
    assert("address-not-a-register"@.len() == 22);
    assert("value-exceeds-register-width"@.len() == 28);
    assert("value-sets-undefined-bits"@.len() == 25);
    assert("field-value-not-in-enum"@.len() == 23);
    assert("write-to-read-only-register"@.len() == 27);
    assert("write-to-read-only-field"@.len() == 24);
    assert("hal-call-pin-out-of-range"@.len() == 25);
    assert("hal-call-funcsel-not-in-enum"@.len() == 28);
    assert("hal-call-index-out-of-range"@.len() == 27);
    assert("hal-call-instance-not-in-svd"@.len() == 28);
    // Where two rules are equally long, one character tells them apart.
    assert("value-exceeds-register-width"@[0] == 'v' && "hal-call-funcsel-not-in-enum"@[0] == 'h');
    assert("hal-call-instance-not-in-svd"@[0] == 'h');
    assert("hal-call-funcsel-not-in-enum"@[9] == 'f' && "hal-call-instance-not-in-svd"@[9] == 'i');
    assert("write-to-read-only-register"@[0] == 'w' && "hal-call-index-out-of-range"@[0] == 'h');
    assert("value-sets-undefined-bits"@[0] == 'v' && "hal-call-pin-out-of-range"@[0] == 'h');
}

/// A check of accesses gives no finding exactly if each access gives none.
pub proof fn check_is_clean_iff_each_access_is(model: ModelView, accesses: Seq<RegisterAccessView>)
    ensures
        checker::accesses_outcome(model, accesses).findings.len() == 0 <==> forall|i: int|
            0 <= i < accesses.len() ==> checker::access_outcome(model, #[trigger] accesses[i]).findings.len() == 0,
    decreases accesses.len(),
{
    if accesses.len() > 0 {
        let rest = accesses.drop_last();
        check_is_clean_iff_each_access_is(model, rest);
        assert(accesses[accesses.len() - 1] == accesses.last());
        if checker::accesses_outcome(model, rest).findings.len() == 0 {
            assert forall|i: int| 0 <= i < rest.len() implies checker::access_outcome(
                model,
                #[trigger] accesses[i],
            ).findings.len() == 0 by {
                assert(rest[i] == accesses[i]);
            }
        } else {
            let i = choose|i: int|
                0 <= i < rest.len() && checker::access_outcome(model, #[trigger] rest[i]).findings.len() != 0;
            assert(accesses[i] == rest[i]);
        }
    }
}

/// A lookup by name finds what has that name, and finds nothing only where nothing has.
pub proof fn lookups_go_by_name(model: ModelView, peripheral: Seq<char>, register: Seq<char>, field: Seq<char>)
    ensures
        match model.peripheral(peripheral) {
            Some(p) => p.name == peripheral && exists|i: int|
                0 <= i < model.peripherals.len() && #[trigger] model.peripherals[i] == p,
            None => forall|i: int|
                0 <= i < model.peripherals.len() ==> (#[trigger] model.peripherals[i]).name != peripheral,
        },
        model.register(peripheral, register) matches Some(r) ==> r.name == register && has_register(
            model,
            peripheral,
            r,
        ),
        model.field(peripheral, register, field) matches Some(f) ==> f.name == field && (model.register(
            peripheral,
            register,
        ) matches Some(r) && has_field(r, f)),
{
    lemma_peripheral_found(model.peripherals, peripheral);
    lemma_peripheral_not_found(model.peripherals, peripheral);
    if let Some(p) = model.peripheral(peripheral) {
        let i = choose|i: int| 0 <= i < model.peripherals.len() && #[trigger] model.peripherals[i] == p;
        lemma_register_found(p.registers, register);
        if let Some(r) = model.register(peripheral, register) {
            let j = choose|j: int| 0 <= j < p.registers.len() && #[trigger] p.registers[j] == r;
            assert(model.peripherals[i].registers[j] == r);
            lemma_field_found(r.fields, field);
        }
    }
}

proof fn lemma_peripheral_not_found(peripherals: Seq<PeripheralView>, name: Seq<char>)
    ensures
        svd_model::find_peripheral(peripherals, name) is None ==> forall|i: int|
            0 <= i < peripherals.len() ==> (#[trigger] peripherals[i]).name != name,
    decreases peripherals.len(),
{
    if peripherals.len() > 0 && peripherals.last().name != name {
        let rest = peripherals.drop_last();
        lemma_peripheral_not_found(rest, name);
        if svd_model::find_peripheral(rest, name) is None {
            assert forall|i: int| 0 <= i < peripherals.len() implies (#[trigger] peripherals[i]).name != name by {
                if i < rest.len() {
                    assert(rest[i] == peripherals[i]);
                }
            }
        }
    }
}

/// Every note about register accesses stands at the place of one of them.
pub proof fn access_notes_have_places(model: ModelView, accesses: Seq<RegisterAccessView>, i: int)
    requires
        0 <= i < checker::accesses_outcome(model, accesses).notes.len(),
    ensures
        ({
            let n = checker::accesses_outcome(model, accesses).notes[i];
            exists|k: int|
                0 <= k < accesses.len() && (#[trigger] accesses[k]).file == n.file && accesses[k].line == n.line
        }),
    decreases accesses.len(),
{
    let rest = accesses.drop_last();
    let before = checker::accesses_outcome(model, rest);
    let last = checker::access_outcome(model, accesses.last());
    lemma_access_sound(model, accesses.last());
    let n = checker::accesses_outcome(model, accesses).notes[i];
    if i < before.notes.len() {
        access_notes_have_places(model, rest, i);
        assert(n == before.notes[i]);
        let k = choose|k: int|
            0 <= k < rest.len() && (#[trigger] rest[k]).file == n.file && rest[k].line == n.line;
        assert(accesses[k] == rest[k]);
    } else {
        assert(n == last.notes[i - before.notes.len()]);
        assert(accesses[accesses.len() - 1] == accesses.last());
    }
}

/// Every note about SDK calls stands at the place of one of them.
pub proof fn call_notes_have_places(model: ModelView, calls: Seq<HalCallView>, i: int)
    requires
        0 <= i < hal_check::calls_outcome(model, calls).notes.len(),
    ensures
        ({
            let n = hal_check::calls_outcome(model, calls).notes[i];
            exists|k: int|
                0 <= k < calls.len() && (#[trigger] calls[k]).file == n.file && calls[k].line == n.line
        }),
    decreases calls.len(),
{
    let rest = calls.drop_last();
    let before = hal_check::calls_outcome(model, rest);
    let last = hal_check::call_outcome(model, calls.last());
    lemma_call_sound(model, calls.last());
    let n = hal_check::calls_outcome(model, calls).notes[i];
    if i < before.notes.len() {
        call_notes_have_places(model, rest, i);
        assert(n == before.notes[i]);
        let k = choose|k: int|
            0 <= k < rest.len() && (#[trigger] rest[k]).file == n.file && rest[k].line == n.line;
        assert(calls[k] == rest[k]);
    } else {
        assert(n == last.notes[i - before.notes.len()]);
        assert(calls[calls.len() - 1] == calls.last());
    }
}

} // verus!
