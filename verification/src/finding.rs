//! What a check reports: findings, which are violations, and notes, which are not.

use vstd::prelude::*;

use crate::svd_model::{EnumValue, EnumValueView};
use crate::text;

verus! {

broadcast use crate::text::group_views;

/// What shows that an index of an SDK call is out of range.
#[derive(Debug, Clone, PartialEq, Eq)]
pub enum IndexEvidence {
    /// The SVD has no register of that name, which belongs to that index.
    NoSuchRegister { peripheral: String, register: String },
    /// The index does not fit in the field that selects it.
    FieldTooNarrow { peripheral: String, register: String, field: String, bit_width: u32 },
    /// A PWM slice has two channels.
    NoSuchPwmChannel,
}

#[derive(Debug, Clone, PartialEq, Eq)]
pub enum FindingKind {
    /// The peripheral exists in the SVD but no register by this name does.
    NonexistentRegister { peripheral: String, register: String },
    /// A literal address falls inside a peripheral's address block but is not the
    /// start address of any register.
    AddressNotARegister { peripheral: String, address: u64 },
    /// The written value does not fit in the register's bit width at all.
    ValueExceedsRegisterWidth { peripheral: String, register: String, value: u64, size_bits: u32 },
    /// The written value sets bits that the SVD assigns to no field: reserved bits, or,
    /// in a register with one field that is narrower, a value too wide for that field.
    ValueSetsUndefinedBits { peripheral: String, register: String, value: u64, defined_mask: u64 },
    /// A field's resulting value is not one of the SVD's enumerated values.
    FieldValueNotInEnum {
        peripheral: String,
        register: String,
        field: String,
        value: u64,
        allowed: Vec<EnumValue>,
    },
    /// The whole register is read-only in the SVD, but firmware writes it.
    WriteToReadOnlyRegister { peripheral: String, register: String },
    /// A field is read-only, but firmware sets bits within it.
    WriteToReadOnlyField { peripheral: String, register: String, field: String },
    /// The pin argument of a gpio_* call is outside the RP2040's GPIO range.
    HalCallPinOutOfRange { function: String, pin: u64 },
    /// The function argument of gpio_set_function is not one of the SVD's enumerated
    /// FUNCSEL values for the pin.
    HalCallFuncselNotInEnum { pin: u64, func: u64, allowed: Vec<EnumValue> },
    /// A PWM slice or channel, a DMA channel or an ADC input that the SVD does not have.
    HalCallIndexOutOfRange { function: String, arg_index: usize, index: u64, evidence: IndexEvidence },
    /// The instance argument of a UART, SPI or I2C call is no peripheral of the SVD.
    HalCallInstanceNotInSvd { function: String, instance: String, peripheral: String },
}

/// How grave a finding is. Every kind is conservative, for what is uncertain is a
/// note. But some kinds are unambiguous bugs, while others rest on an annotation
/// whose effect the CMSIS specification leaves undefined.
#[derive(Debug, Clone, Copy, PartialEq, Eq, PartialOrd, Ord, Structural)]
pub enum Severity {
    Warning,
    Error,
}

/// A violation, with the place in the source that it was found at.
#[derive(Debug, Clone)]
pub struct Finding {
    pub kind: FindingKind,
    pub severity: Severity,
    pub file: String,
    pub line: usize,
    pub raw_lhs: String,
    pub raw_op: &'static str,
    pub raw_rhs: String,
}

/// An observation that is not flagged as a violation, because something that is
/// needed to judge it is not statically known.
#[derive(Debug, Clone, PartialEq, Eq)]
pub enum Note {
    /// The shape of an access was recognised, but its target is not known.
    UnresolvedAccess,
    /// A name follows the naming convention, but no peripheral of the SVD matches it:
    /// likely not a register access.
    UnknownPeripheralGuess { peripheral: String },
    /// Only the peripheral is known; there is no register name.
    PeripheralOnlyKnown { peripheral: String },
    /// A literal address falls within no peripheral's address block.
    AddressNotMapped { address: u64 },
    /// A field has no enumeration in the SVD: which values are allowed is unverifiable.
    FieldUnverifiableNoEnum { peripheral: String, register: String, field: String },
    /// A register has no fields: the checks of its bits are skipped.
    RegisterHasNoFields { peripheral: String, register: String },
    /// The operator (`&=`, `+=`, a shift) gives a value that depends on what the
    /// register held before, so the checks of the value are skipped.
    ValueNotDeterminableForOp { peripheral: String, register: String },
    /// The value written is no constant, so the checks of the value are skipped.
    ValueNotStaticallyKnown { peripheral: String, register: String },
    /// An argument of an SDK call is no constant, so the check of it is skipped.
    HalCallArgUnknown { function: String, arg_index: usize },
}

/// A note, with the place in the source that it is about.
#[derive(Debug, Clone)]
pub struct Noted {
    pub note: Note,
    pub file: String,
    pub line: usize,
}

/// The outcome of a check.
#[derive(Debug, Clone)]
pub struct CheckResult {
    pub findings: Vec<Finding>,
    pub notes: Vec<Noted>,
}

// ── Views ────────────────────────────────────────────────────────────────────

pub enum IndexEvidenceView {
    NoSuchRegister { peripheral: Seq<char>, register: Seq<char> },
    FieldTooNarrow { peripheral: Seq<char>, register: Seq<char>, field: Seq<char>, bit_width: u32 },
    NoSuchPwmChannel,
}

pub enum FindingKindView {
    NonexistentRegister { peripheral: Seq<char>, register: Seq<char> },
    AddressNotARegister { peripheral: Seq<char>, address: u64 },
    ValueExceedsRegisterWidth { peripheral: Seq<char>, register: Seq<char>, value: u64, size_bits: u32 },
    ValueSetsUndefinedBits { peripheral: Seq<char>, register: Seq<char>, value: u64, defined_mask: u64 },
    FieldValueNotInEnum {
        peripheral: Seq<char>,
        register: Seq<char>,
        field: Seq<char>,
        value: u64,
        allowed: Seq<EnumValueView>,
    },
    WriteToReadOnlyRegister { peripheral: Seq<char>, register: Seq<char> },
    WriteToReadOnlyField { peripheral: Seq<char>, register: Seq<char>, field: Seq<char> },
    HalCallPinOutOfRange { function: Seq<char>, pin: u64 },
    HalCallFuncselNotInEnum { pin: u64, func: u64, allowed: Seq<EnumValueView> },
    HalCallIndexOutOfRange { function: Seq<char>, arg_index: usize, index: u64, evidence: IndexEvidenceView },
    HalCallInstanceNotInSvd { function: Seq<char>, instance: Seq<char>, peripheral: Seq<char> },
}

pub struct FindingView {
    pub kind: FindingKindView,
    pub severity: Severity,
    pub file: Seq<char>,
    pub line: usize,
    pub raw_lhs: Seq<char>,
    pub raw_op: Seq<char>,
    pub raw_rhs: Seq<char>,
}

pub enum NoteView {
    UnresolvedAccess,
    UnknownPeripheralGuess { peripheral: Seq<char> },
    PeripheralOnlyKnown { peripheral: Seq<char> },
    AddressNotMapped { address: u64 },
    FieldUnverifiableNoEnum { peripheral: Seq<char>, register: Seq<char>, field: Seq<char> },
    RegisterHasNoFields { peripheral: Seq<char>, register: Seq<char> },
    ValueNotDeterminableForOp { peripheral: Seq<char>, register: Seq<char> },
    ValueNotStaticallyKnown { peripheral: Seq<char>, register: Seq<char> },
    HalCallArgUnknown { function: Seq<char>, arg_index: usize },
}

pub struct NotedView {
    pub note: NoteView,
    pub file: Seq<char>,
    pub line: usize,
}

pub struct CheckResultView {
    pub findings: Seq<FindingView>,
    pub notes: Seq<NotedView>,
}

impl View for IndexEvidence {
    type V = IndexEvidenceView;

    open spec fn view(&self) -> IndexEvidenceView {
        match *self {
            IndexEvidence::NoSuchRegister { peripheral, register } => IndexEvidenceView::NoSuchRegister {
                peripheral: peripheral@,
                register: register@,
            },
            IndexEvidence::FieldTooNarrow { peripheral, register, field, bit_width } => {
                IndexEvidenceView::FieldTooNarrow {
                    peripheral: peripheral@,
                    register: register@,
                    field: field@,
                    bit_width,
                }
            },
            IndexEvidence::NoSuchPwmChannel => IndexEvidenceView::NoSuchPwmChannel,
        }
    }
}

impl View for FindingKind {
    type V = FindingKindView;

    open spec fn view(&self) -> FindingKindView {
        match *self {
            FindingKind::NonexistentRegister { peripheral, register } => FindingKindView::NonexistentRegister {
                peripheral: peripheral@,
                register: register@,
            },
            FindingKind::AddressNotARegister { peripheral, address } => FindingKindView::AddressNotARegister {
                peripheral: peripheral@,
                address,
            },
            FindingKind::ValueExceedsRegisterWidth { peripheral, register, value, size_bits } => {
                FindingKindView::ValueExceedsRegisterWidth {
                    peripheral: peripheral@,
                    register: register@,
                    value,
                    size_bits,
                }
            },
            FindingKind::ValueSetsUndefinedBits { peripheral, register, value, defined_mask } => {
                FindingKindView::ValueSetsUndefinedBits {
                    peripheral: peripheral@,
                    register: register@,
                    value,
                    defined_mask,
                }
            },
            FindingKind::FieldValueNotInEnum { peripheral, register, field, value, allowed } => {
                FindingKindView::FieldValueNotInEnum {
                    peripheral: peripheral@,
                    register: register@,
                    field: field@,
                    value,
                    allowed: text::views(allowed@),
                }
            },
            FindingKind::WriteToReadOnlyRegister { peripheral, register } => {
                FindingKindView::WriteToReadOnlyRegister { peripheral: peripheral@, register: register@ }
            },
            FindingKind::WriteToReadOnlyField { peripheral, register, field } => {
                FindingKindView::WriteToReadOnlyField {
                    peripheral: peripheral@,
                    register: register@,
                    field: field@,
                }
            },
            FindingKind::HalCallPinOutOfRange { function, pin } => FindingKindView::HalCallPinOutOfRange {
                function: function@,
                pin,
            },
            FindingKind::HalCallFuncselNotInEnum { pin, func, allowed } => {
                FindingKindView::HalCallFuncselNotInEnum { pin, func, allowed: text::views(allowed@) }
            },
            FindingKind::HalCallIndexOutOfRange { function, arg_index, index, evidence } => {
                FindingKindView::HalCallIndexOutOfRange {
                    function: function@,
                    arg_index,
                    index,
                    evidence: evidence@,
                }
            },
            FindingKind::HalCallInstanceNotInSvd { function, instance, peripheral } => {
                FindingKindView::HalCallInstanceNotInSvd {
                    function: function@,
                    instance: instance@,
                    peripheral: peripheral@,
                }
            },
        }
    }
}

impl View for Finding {
    type V = FindingView;

    open spec fn view(&self) -> FindingView {
        FindingView {
            kind: self.kind@,
            severity: self.severity,
            file: self.file@,
            line: self.line,
            raw_lhs: self.raw_lhs@,
            raw_op: self.raw_op@,
            raw_rhs: self.raw_rhs@,
        }
    }
}

impl View for Note {
    type V = NoteView;

    open spec fn view(&self) -> NoteView {
        match *self {
            Note::UnresolvedAccess => NoteView::UnresolvedAccess,
            Note::UnknownPeripheralGuess { peripheral } => NoteView::UnknownPeripheralGuess {
                peripheral: peripheral@,
            },
            Note::PeripheralOnlyKnown { peripheral } => NoteView::PeripheralOnlyKnown { peripheral: peripheral@ },
            Note::AddressNotMapped { address } => NoteView::AddressNotMapped { address },
            Note::FieldUnverifiableNoEnum { peripheral, register, field } => NoteView::FieldUnverifiableNoEnum {
                peripheral: peripheral@,
                register: register@,
                field: field@,
            },
            Note::RegisterHasNoFields { peripheral, register } => NoteView::RegisterHasNoFields {
                peripheral: peripheral@,
                register: register@,
            },
            Note::ValueNotDeterminableForOp { peripheral, register } => NoteView::ValueNotDeterminableForOp {
                peripheral: peripheral@,
                register: register@,
            },
            Note::ValueNotStaticallyKnown { peripheral, register } => NoteView::ValueNotStaticallyKnown {
                peripheral: peripheral@,
                register: register@,
            },
            Note::HalCallArgUnknown { function, arg_index } => NoteView::HalCallArgUnknown {
                function: function@,
                arg_index,
            },
        }
    }
}

impl View for Noted {
    type V = NotedView;

    open spec fn view(&self) -> NotedView {
        NotedView { note: self.note@, file: self.file@, line: self.line }
    }
}

impl View for CheckResult {
    type V = CheckResultView;

    open spec fn view(&self) -> CheckResultView {
        CheckResultView { findings: text::views(self.findings@), notes: text::views(self.notes@) }
    }
}

// ── Severity and rule ────────────────────────────────────────────────────────

impl FindingKindView {
    pub open spec fn severity(self) -> Severity {
        match self {
            FindingKindView::ValueSetsUndefinedBits { .. } => Severity::Warning,
            FindingKindView::WriteToReadOnlyField { .. } => Severity::Warning,
            _ => Severity::Error,
        }
    }

    pub open spec fn rule_id(self) -> Seq<char> {
        match self {
            FindingKindView::NonexistentRegister { .. } => "nonexistent-register"@,
            FindingKindView::AddressNotARegister { .. } => "address-not-a-register"@,
            FindingKindView::ValueExceedsRegisterWidth { .. } => "value-exceeds-register-width"@,
            FindingKindView::ValueSetsUndefinedBits { .. } => "value-sets-undefined-bits"@,
            FindingKindView::FieldValueNotInEnum { .. } => "field-value-not-in-enum"@,
            FindingKindView::WriteToReadOnlyRegister { .. } => "write-to-read-only-register"@,
            FindingKindView::WriteToReadOnlyField { .. } => "write-to-read-only-field"@,
            FindingKindView::HalCallPinOutOfRange { .. } => "hal-call-pin-out-of-range"@,
            FindingKindView::HalCallFuncselNotInEnum { .. } => "hal-call-funcsel-not-in-enum"@,
            FindingKindView::HalCallIndexOutOfRange { .. } => "hal-call-index-out-of-range"@,
            FindingKindView::HalCallInstanceNotInSvd { .. } => "hal-call-instance-not-in-svd"@,
        }
    }
}

impl FindingKind {
    pub fn severity(&self) -> (r: Severity)
        ensures
            r == self@.severity(),
    {
        match self {
            FindingKind::NonexistentRegister { .. }
            | FindingKind::AddressNotARegister { .. }
            | FindingKind::ValueExceedsRegisterWidth { .. }
            | FindingKind::FieldValueNotInEnum { .. }
            | FindingKind::WriteToReadOnlyRegister { .. }
            | FindingKind::HalCallPinOutOfRange { .. }
            | FindingKind::HalCallFuncselNotInEnum { .. }
            | FindingKind::HalCallIndexOutOfRange { .. }
            | FindingKind::HalCallInstanceNotInSvd { .. } => Severity::Error,
            FindingKind::ValueSetsUndefinedBits { .. } | FindingKind::WriteToReadOnlyField { .. } => {
                Severity::Warning
            },
        }
    }

    /// The stable identifier of this class of violation. It never changes its meaning,
    /// so that tools can rely on it.
    pub fn rule_id(&self) -> (r: &'static str)
        ensures
            r@ == self@.rule_id(),
    {
        match self {
            FindingKind::NonexistentRegister { .. } => "nonexistent-register",
            FindingKind::AddressNotARegister { .. } => "address-not-a-register",
            FindingKind::ValueExceedsRegisterWidth { .. } => "value-exceeds-register-width",
            FindingKind::ValueSetsUndefinedBits { .. } => "value-sets-undefined-bits",
            FindingKind::FieldValueNotInEnum { .. } => "field-value-not-in-enum",
            FindingKind::WriteToReadOnlyRegister { .. } => "write-to-read-only-register",
            FindingKind::WriteToReadOnlyField { .. } => "write-to-read-only-field",
            FindingKind::HalCallPinOutOfRange { .. } => "hal-call-pin-out-of-range",
            FindingKind::HalCallFuncselNotInEnum { .. } => "hal-call-funcsel-not-in-enum",
            FindingKind::HalCallIndexOutOfRange { .. } => "hal-call-index-out-of-range",
            FindingKind::HalCallInstanceNotInSvd { .. } => "hal-call-instance-not-in-svd",
        }
    }
}

// ── Outcomes, one after the other ────────────────────────────────────────────

impl CheckResultView {
    /// The outcome that holds neither a finding nor a note.
    pub open spec fn nothing() -> CheckResultView {
        CheckResultView { findings: Seq::empty(), notes: Seq::empty() }
    }

    /// This outcome, and then another one.
    pub open spec fn then_also(self, other: CheckResultView) -> CheckResultView {
        CheckResultView { findings: self.findings + other.findings, notes: self.notes + other.notes }
    }
}

/// Outcomes can be gathered in any grouping.
pub broadcast proof fn lemma_then_also_assoc(a: CheckResultView, b: CheckResultView, c: CheckResultView)
    ensures
        #[trigger] a.then_also(b).then_also(c) == a.then_also(b.then_also(c)),
{
    assert((a.findings + b.findings) + c.findings =~= a.findings + (b.findings + c.findings));
    assert((a.notes + b.notes) + c.notes =~= a.notes + (b.notes + c.notes));
}

/// Nothing adds nothing.
pub broadcast proof fn lemma_then_also_nothing(a: CheckResultView)
    ensures
        #[trigger] a.then_also(CheckResultView::nothing()) == a,
{
    assert(a.findings + Seq::<FindingView>::empty() =~= a.findings);
    assert(a.notes + Seq::<NotedView>::empty() =~= a.notes);
}

/// What follows nothing is all there is.
pub broadcast proof fn lemma_nothing_then_also(a: CheckResultView)
    ensures
        #[trigger] CheckResultView::nothing().then_also(a) == a,
{
    assert(Seq::<FindingView>::empty() + a.findings =~= a.findings);
    assert(Seq::<NotedView>::empty() + a.notes =~= a.notes);
}

pub broadcast group group_outcomes {
    lemma_then_also_assoc,
    lemma_then_also_nothing,
    lemma_nothing_then_also,
}

impl Default for CheckResult {
    fn default() -> (r: CheckResult)
        ensures
            r@ == CheckResultView::nothing(),
    {
        CheckResult { findings: Vec::new(), notes: Vec::new() }
    }
}

} // verus!
