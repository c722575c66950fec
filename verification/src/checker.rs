//! Register accesses against the device model.
//!
//! Here and in `hal_check` it is decided whether something is a violation, and every
//! decision rests on a fact of the SVD. Where a target or a value is not statically
//! known, or a field has no enumeration in the SVD, the outcome is a note, never a
//! finding.

use vstd::prelude::*;

use crate::bits;
use crate::finding::{
    CheckResult, CheckResultView, Finding, FindingKind, FindingKindView, FindingView, Note, NoteView, Noted,
    NotedView,
};
use crate::fw_parse::{AssignOp, RegisterAccess, RegisterAccessView, Target, TargetView};
use crate::svd::Access;
use crate::svd_model;
use crate::svd_model::{
    AddressLookup, AddressLookupView, EnumValue, EnumValueView, FieldModel, FieldView, Model, ModelView,
    PeripheralModel, RegisterModel, RegisterView,
};
use crate::text;

verus! {

broadcast use {crate::text::group_views, crate::finding::group_outcomes};

// ── Register accesses: what is reported ──────────────────────────────────────

/// How an assignment operator is written.
pub open spec fn op_spelling(op: AssignOp) -> Seq<char> {
    match op {
        AssignOp::Assign => "="@,
        AssignOp::OrAssign => "|="@,
        AssignOp::AndAssign => "&="@,
        AssignOp::XorAssign => "^="@,
        AssignOp::AddAssign => "+="@,
        AssignOp::SubAssign => "-="@,
        AssignOp::MulAssign => "*="@,
        AssignOp::DivAssign => "/="@,
        AssignOp::ModAssign => "%="@,
        AssignOp::ShlAssign => "<<="@,
        AssignOp::ShrAssign => ">>="@,
    }
}

/// One finding about an access, and nothing else.
pub open spec fn found(access: RegisterAccessView, kind: FindingKindView) -> CheckResultView {
    CheckResultView {
        findings: seq![
            FindingView {
                kind,
                severity: kind.severity(),
                file: access.file,
                line: access.line,
                raw_lhs: access.raw_lhs,
                raw_op: op_spelling(access.op),
                raw_rhs: access.raw_rhs,
            },
        ],
        notes: Seq::empty(),
    }
}

/// One note about an access, and nothing else.
pub open spec fn remarked(access: RegisterAccessView, note: NoteView) -> CheckResultView {
    CheckResultView {
        findings: Seq::empty(),
        notes: seq![NotedView { note, file: access.file, line: access.line }],
    }
}

/// The bits of a field within its register.
pub open spec fn mask_of(field: FieldView) -> u64 {
    bits::range_mask(field.bit_offset, field.bit_width)
}

/// The bits of all the fields of a register.
pub open spec fn defined_mask(fields: Seq<FieldView>) -> u64
    decreases fields.len(),
{
    if fields.len() == 0 {
        0
    } else {
        defined_mask(fields.drop_last()) | mask_of(fields.last())
    }
}

/// Whether an enumeration lists `value`.
pub open spec fn lists(allowed: Seq<EnumValueView>, value: u64) -> bool {
    exists|i: int| 0 <= i < allowed.len() && (#[trigger] allowed[i]).value == value
}

/// What a write of `value` does to a field that it may not do: setting bits of one
/// that is read-only.
pub open spec fn read_only_outcome(
    peripheral: Seq<char>,
    register: Seq<char>,
    field: FieldView,
    access: RegisterAccessView,
    value: u64,
) -> CheckResultView {
    if field.access == Access::ReadOnly && value & mask_of(field) != 0 {
        found(access, FindingKindView::WriteToReadOnlyField { peripheral, register, field: field.name })
    } else {
        CheckResultView::nothing()
    }
}

/// Whether the value that a field has after the write is known: `=` sets it, and `|=`
/// does where it covers the field with ones.
pub open spec fn field_value_known(field: FieldView, op: AssignOp, value: u64) -> bool {
    op == AssignOp::Assign || value & mask_of(field) == mask_of(field)
}

/// Whether the value that a field gets is one that the SVD lists for it.
pub open spec fn membership_outcome(
    peripheral: Seq<char>,
    register: Seq<char>,
    field: FieldView,
    access: RegisterAccessView,
    value: u64,
) -> CheckResultView {
    let field_value = bits::range_value(value, field.bit_offset, field.bit_width);
    if !field_value_known(field, access.op, value) {
        CheckResultView::nothing()
    } else {
        match field.allowed_values {
            Some(allowed) => if lists(allowed, field_value) {
                CheckResultView::nothing()
            } else {
                found(
                    access,
                    FindingKindView::FieldValueNotInEnum {
                        peripheral,
                        register,
                        field: field.name,
                        value: field_value,
                        allowed,
                    },
                )
            },
            None => remarked(
                access,
                NoteView::FieldUnverifiableNoEnum { peripheral, register, field: field.name },
            ),
        }
    }
}

/// What there is to say of a write of `value`, by `=` or `|=`, with respect to a field.
pub open spec fn field_outcome(
    peripheral: Seq<char>,
    register: Seq<char>,
    field: FieldView,
    access: RegisterAccessView,
    value: u64,
) -> CheckResultView {
    read_only_outcome(peripheral, register, field, access, value).then_also(
        membership_outcome(peripheral, register, field, access, value),
    )
}

/// What there is to say of a write with respect to each of the fields in turn.
pub open spec fn fields_outcome(
    peripheral: Seq<char>,
    register: Seq<char>,
    fields: Seq<FieldView>,
    access: RegisterAccessView,
    value: u64,
) -> CheckResultView
    decreases fields.len(),
{
    if fields.len() == 0 {
        CheckResultView::nothing()
    } else {
        fields_outcome(peripheral, register, fields.drop_last(), access, value).then_also(
            field_outcome(peripheral, register, fields.last(), access, value),
        )
    }
}

/// Whether `value` fits in a register of that many bits.
pub open spec fn fits(value: u64, size_bits: u32) -> bool {
    size_bits >= 64 || value < (1u64 << size_bits)
}

/// What there is to say of the value that `=` or `|=` writes to a register.
pub open spec fn value_outcome(
    peripheral: Seq<char>,
    register: RegisterView,
    access: RegisterAccessView,
    value: u64,
) -> CheckResultView {
    let width = if fits(value, register.size_bits) {
        CheckResultView::nothing()
    } else {
        found(
            access,
            FindingKindView::ValueExceedsRegisterWidth {
                peripheral,
                register: register.name,
                value,
                size_bits: register.size_bits,
            },
        )
    };
    if register.fields.len() == 0 {
        width.then_also(remarked(access, NoteView::RegisterHasNoFields { peripheral, register: register.name }))
    } else {
        let mask = defined_mask(register.fields);
        let undefined = if value & !mask == 0 {
            CheckResultView::nothing()
        } else {
            found(
                access,
                FindingKindView::ValueSetsUndefinedBits {
                    peripheral,
                    register: register.name,
                    value,
                    defined_mask: mask,
                },
            )
        };
        width.then_also(undefined).then_also(
            fields_outcome(peripheral, register.name, register.fields, access, value),
        )
    }
}

/// What there is to say of a write to a register.
///
/// Only `=` and `|=` have an effect on the bits that is known without knowing what the
/// register held before: `=` replaces everything, `|=` forces its ones high. With any
/// other operator the value is not judged.
pub open spec fn register_outcome(
    peripheral: Seq<char>,
    register: RegisterView,
    access: RegisterAccessView,
) -> CheckResultView {
    let read_only = if register.access == Access::ReadOnly {
        found(access, FindingKindView::WriteToReadOnlyRegister { peripheral, register: register.name })
    } else {
        CheckResultView::nothing()
    };
    read_only.then_also(
        match access.value {
            None => remarked(
                access,
                NoteView::ValueNotStaticallyKnown { peripheral, register: register.name },
            ),
            Some(value) => if access.op == AssignOp::Assign || access.op == AssignOp::OrAssign {
                value_outcome(peripheral, register, access, value)
            } else {
                remarked(access, NoteView::ValueNotDeterminableForOp { peripheral, register: register.name })
            },
        },
    )
}

/// What there is to say of an access by the names of a peripheral and a register.
pub open spec fn named_outcome(
    model: ModelView,
    peripheral: Seq<char>,
    register: Seq<char>,
    access: RegisterAccessView,
) -> CheckResultView {
    match model.peripheral(peripheral) {
        None => remarked(access, NoteView::UnknownPeripheralGuess { peripheral }),
        Some(p) => match svd_model::find_register(p.registers, register) {
            None => found(access, FindingKindView::NonexistentRegister { peripheral, register }),
            Some(r) => register_outcome(p.name, r, access),
        },
    }
}

/// What there is to say of a register access.
pub open spec fn access_outcome(model: ModelView, access: RegisterAccessView) -> CheckResultView {
    match access.target {
        TargetView::Unresolved => remarked(access, NoteView::UnresolvedAccess),
        TargetView::RegsMacro { peripheral, register: None } => remarked(
            access,
            NoteView::PeripheralOnlyKnown { peripheral },
        ),
        TargetView::RegsMacro { peripheral, register: Some(register) } => named_outcome(
            model,
            peripheral,
            register,
            access,
        ),
        TargetView::StructField { peripheral, register } => named_outcome(model, peripheral, register, access),
        TargetView::Address(address) => match model.resolve_address(address) {
            AddressLookupView::Register(p, r) => register_outcome(p.name, r, access),
            AddressLookupView::WithinPeripheral(p) => found(
                access,
                FindingKindView::AddressNotARegister { peripheral: p.name, address },
            ),
            AddressLookupView::Unmapped => remarked(access, NoteView::AddressNotMapped { address }),
        },
    }
}

/// What there is to say of a list of accesses, one after the other.
pub open spec fn accesses_outcome(model: ModelView, accesses: Seq<RegisterAccessView>) -> CheckResultView
    decreases accesses.len(),
{
    if accesses.len() == 0 {
        CheckResultView::nothing()
    } else {
        accesses_outcome(model, accesses.drop_last()).then_also(access_outcome(model, accesses.last()))
    }
}

// ── Register accesses: the check ─────────────────────────────────────────────

/// Checks register accesses against the model.
pub fn check(model: &Model, accesses: &[RegisterAccess]) -> (r: CheckResult)
    ensures
        r@ == accesses_outcome(model@, text::views(accesses@)),
{
    let ghost all = text::views(accesses@);
    let mut result = CheckResult::default();
    let mut i: usize = 0;
    while i < accesses.len()
        invariant
            i <= accesses@.len(),
            all == text::views(accesses@),
            result@ == accesses_outcome(model@, all.take(i as int)),
        decreases accesses.len() - i,
    {
        assert(all.take(i + 1).drop_last() =~= all.take(i as int));
        assert(all.take(i + 1).last() == accesses@[i as int]@);
        check_one(model, &accesses[i], &mut result);
        i += 1;
    }
    assert(all.take(all.len() as int) =~= all);
    result
}

fn check_one(model: &Model, access: &RegisterAccess, result: &mut CheckResult)
    ensures
        final(result)@ == old(result)@.then_also(access_outcome(model@, access@)),
{
    match &access.target {
        Target::Unresolved => note(result, access, Note::UnresolvedAccess),
        Target::RegsMacro { peripheral, register } => match register {
            None => note(result, access, Note::PeripheralOnlyKnown { peripheral: peripheral.clone() }),
            Some(register) => check_named(model, peripheral, register, access, result),
        },
        Target::StructField { peripheral, register } => check_named(model, peripheral, register, access, result),
        Target::Address(address) => match model.resolve_address(*address) {
            AddressLookup::Register(p, r) => check_register(p, r, access, result),
            AddressLookup::WithinPeripheral(p) => finding(
                result,
                access,
                FindingKind::AddressNotARegister { peripheral: p.name.clone(), address: *address },
            ),
            AddressLookup::Unmapped => note(result, access, Note::AddressNotMapped { address: *address }),
        },
    }
}

/// What a pair of names stands for in the model.
enum Resolved<'m> {
    Found(&'m PeripheralModel, &'m RegisterModel),
    UnknownPeripheral,
    NonexistentRegister,
}

fn resolve_named<'m>(model: &'m Model, peripheral: &str, register: &str) -> (r: Resolved<'m>)
    ensures
        match r {
            Resolved::Found(p, reg) => model@.peripheral(peripheral@) == Some(p@) && svd_model::find_register(
                p@.registers,
                register@,
            ) == Some(reg@),
            Resolved::UnknownPeripheral => model@.peripheral(peripheral@) is None,
            Resolved::NonexistentRegister => model@.peripheral(peripheral@) matches Some(p)
                && svd_model::find_register(p.registers, register@) is None,
        },
{
    match model.peripheral(peripheral) {
        None => Resolved::UnknownPeripheral,
        Some(p) => match p.register(register) {
            None => Resolved::NonexistentRegister,
            Some(r) => Resolved::Found(p, r),
        },
    }
}

fn check_named(
    model: &Model,
    peripheral: &String,
    register: &String,
    access: &RegisterAccess,
    result: &mut CheckResult,
)
    ensures
        final(result)@ == old(result)@.then_also(named_outcome(model@, peripheral@, register@, access@)),
{
    match resolve_named(model, peripheral.as_str(), register.as_str()) {
        Resolved::Found(p, r) => check_register(p, r, access, result),
        Resolved::UnknownPeripheral => note(
            result,
            access,
            Note::UnknownPeripheralGuess { peripheral: peripheral.clone() },
        ),
        Resolved::NonexistentRegister => finding(
            result,
            access,
            FindingKind::NonexistentRegister { peripheral: peripheral.clone(), register: register.clone() },
        ),
    }
}

fn check_register(
    peripheral: &PeripheralModel,
    register: &RegisterModel,
    access: &RegisterAccess,
    result: &mut CheckResult,
)
    ensures
        final(result)@ == old(result)@.then_also(register_outcome(peripheral@.name, register@, access@)),
{
    if register.access == Access::ReadOnly {
        finding(
            result,
            access,
            FindingKind::WriteToReadOnlyRegister {
                peripheral: peripheral.name.clone(),
                register: register.name.clone(),
            },
        );
    }
    match access.value {
        None => note(
            result,
            access,
            Note::ValueNotStaticallyKnown {
                peripheral: peripheral.name.clone(),
                register: register.name.clone(),
            },
        ),
        Some(value) => {
            if access.op == AssignOp::Assign || access.op == AssignOp::OrAssign {
                check_value(peripheral, register, access, value, result);
            } else {
                note(
                    result,
                    access,
                    Note::ValueNotDeterminableForOp {
                        peripheral: peripheral.name.clone(),
                        register: register.name.clone(),
                    },
                );
            }
        },
    }
}

fn check_value(
    peripheral: &PeripheralModel,
    register: &RegisterModel,
    access: &RegisterAccess,
    value: u64,
    result: &mut CheckResult,
)
    requires
        access.op == AssignOp::Assign || access.op == AssignOp::OrAssign,
    ensures
        final(result)@ == old(result)@.then_also(value_outcome(peripheral@.name, register@, access@, value)),
{
    if register.size_bits < 64 && value >= (1u64 << register.size_bits) {
        finding(
            result,
            access,
            FindingKind::ValueExceedsRegisterWidth {
                peripheral: peripheral.name.clone(),
                register: register.name.clone(),
                value,
                size_bits: register.size_bits,
            },
        );
    }
    if register.fields.len() == 0 {
        note(
            result,
            access,
            Note::RegisterHasNoFields {
                peripheral: peripheral.name.clone(),
                register: register.name.clone(),
            },
        );
        return;
    }
    let defined_mask: u64 = defined_mask_of(&register.fields);
    if value & !defined_mask != 0 {
        finding(
            result,
            access,
            FindingKind::ValueSetsUndefinedBits {
                peripheral: peripheral.name.clone(),
                register: register.name.clone(),
                value,
                defined_mask,
            },
        );
    }
    let ghost so_far = result@;
    let ghost all = register@.fields;
    let mut i: usize = 0;
    while i < register.fields.len()
        invariant
            access.op == AssignOp::Assign || access.op == AssignOp::OrAssign,
            i <= register.fields@.len(),
            all == text::views(register.fields@),
            result@ == so_far.then_also(
                fields_outcome(peripheral@.name, register@.name, all.take(i as int), access@, value),
            ),
        decreases register.fields.len() - i,
    {
        assert(all.take(i + 1).drop_last() =~= all.take(i as int));
        assert(all.take(i + 1).last() == register.fields@[i as int]@);
        check_field(peripheral, register, &register.fields[i], access, value, result);
        i += 1;
    }
    assert(all.take(all.len() as int) =~= all);
}

fn check_field(
    peripheral: &PeripheralModel,
    register: &RegisterModel,
    field: &FieldModel,
    access: &RegisterAccess,
    value: u64,
    result: &mut CheckResult,
)
    requires
        access.op == AssignOp::Assign || access.op == AssignOp::OrAssign,
    ensures
        final(result)@ == old(result)@.then_also(
            field_outcome(peripheral@.name, register@.name, field@, access@, value),
        ),
{
    let mask: u64 = field_mask(field);
    let determinable = access.op == AssignOp::Assign || value & mask == mask;
    if field.access == Access::ReadOnly && value & mask != 0 {
        finding(
            result,
            access,
            FindingKind::WriteToReadOnlyField {
                peripheral: peripheral.name.clone(),
                register: register.name.clone(),
                field: field.name.clone(),
            },
        );
    }
    if !determinable {
        return;
    }
    let field_value: u64 = bits::range_value_of(value, field.bit_offset, field.bit_width);
    match &field.allowed_values {
        Some(allowed) => {
            if !contains_value(allowed, field_value) {
                finding(
                    result,
                    access,
                    FindingKind::FieldValueNotInEnum {
                        peripheral: peripheral.name.clone(),
                        register: register.name.clone(),
                        field: field.name.clone(),
                        value: field_value,
                        allowed: svd_model::clone_enum_values(allowed),
                    },
                );
            }
        },
        None => note(
            result,
            access,
            Note::FieldUnverifiableNoEnum {
                peripheral: peripheral.name.clone(),
                register: register.name.clone(),
                field: field.name.clone(),
            },
        ),
    }
}

pub(crate) fn contains_value(allowed: &[EnumValue], value: u64) -> (r: bool)
    ensures
        r == lists(text::views(allowed@), value),
{
    let ghost all = text::views(allowed@);
    let mut i: usize = 0;
    while i < allowed.len()
        invariant
            i <= allowed@.len(),
            all == text::views(allowed@),
            forall|j: int| 0 <= j < i ==> (#[trigger] all[j]).value != value,
        decreases allowed.len() - i,
    {
        assert(all[i as int] == allowed@[i as int]@);
        if allowed[i].value == value {
            return true;
        }
        i += 1;
    }
    false
}

/// The bits of a field within its register.
pub fn field_mask(field: &FieldModel) -> (r: u64)
    ensures
        r == mask_of(field@),
{
    bits::range_mask_of(field.bit_offset, field.bit_width)
}

fn defined_mask_of(fields: &[FieldModel]) -> (r: u64)
    ensures
        r == defined_mask(text::views(fields@)),
{
    let ghost all = text::views(fields@);
    let mut mask: u64 = 0;
    let mut i: usize = 0;
    while i < fields.len()
        invariant
            i <= fields@.len(),
            all == text::views(fields@),
            mask == defined_mask(all.take(i as int)),
        decreases fields.len() - i,
    {
        assert(all.take(i + 1).drop_last() =~= all.take(i as int));
        assert(all.take(i + 1).last() == fields@[i as int]@);
        mask = mask | field_mask(&fields[i]);
        i += 1;
    }
    assert(all.take(all.len() as int) =~= all);
    mask
}

fn finding(result: &mut CheckResult, access: &RegisterAccess, kind: FindingKind)
    ensures
        final(result)@ == old(result)@.then_also(found(access@, kind@)),
{
    let ghost before = result@;
    let severity = kind.severity();
    let finding = Finding {
        kind,
        severity,
        file: access.file.clone(),
        line: access.line,
        raw_lhs: access.raw_lhs.clone(),
        raw_op: op_text(access.op),
        raw_rhs: access.raw_rhs.clone(),
    };
    result.findings.push(finding);
    assert(result@.findings =~= before.then_also(found(access@, kind@)).findings);
    assert(result@.notes =~= before.then_also(found(access@, kind@)).notes);
}

/// How an assignment operator is written.
pub fn op_text(op: AssignOp) -> (r: &'static str)
    ensures
        r@ == op_spelling(op),
{
    match op {
        AssignOp::Assign => "=",
        AssignOp::OrAssign => "|=",
        AssignOp::AndAssign => "&=",
        AssignOp::XorAssign => "^=",
        AssignOp::AddAssign => "+=",
        AssignOp::SubAssign => "-=",
        AssignOp::MulAssign => "*=",
        AssignOp::DivAssign => "/=",
        AssignOp::ModAssign => "%=",
        AssignOp::ShlAssign => "<<=",
        AssignOp::ShrAssign => ">>=",
    }
}

fn note(result: &mut CheckResult, access: &RegisterAccess, note: Note)
    ensures
        final(result)@ == old(result)@.then_also(remarked(access@, note@)),
{
    let ghost before = result@;
    result.notes.push(Noted { note, file: access.file.clone(), line: access.line });
    assert(result@.findings =~= before.then_also(remarked(access@, note@)).findings);
    assert(result@.notes =~= before.then_also(remarked(access@, note@)).notes);
}

} // verus!
