//! Findings and notes in words.
//!
//! An explanation names the SVD facts that back it, so that the explanation of a
//! finding and the evidence for it are the same data.

use vstd::prelude::*;

use crate::bits;
use crate::finding::{FindingKind, FindingKindView, IndexEvidence, IndexEvidenceView, Note, NoteView};
use crate::svd_model::{EnumValue, EnumValueView};
use crate::text;

verus! {

broadcast use crate::text::group_views;

// ── Pieces ───────────────────────────────────────────────────────────────────

/// `PERIPHERAL.REGISTER`.
pub open spec fn register_path(peripheral: Seq<char>, register: Seq<char>) -> Seq<char> {
    peripheral + "."@ + register
}

/// `PERIPHERAL.REGISTER.FIELD`.
pub open spec fn field_path(peripheral: Seq<char>, register: Seq<char>, field: Seq<char>) -> Seq<char> {
    peripheral + "."@ + register + "."@ + field
}

/// `name=value`.
pub open spec fn enum_entry(v: EnumValueView) -> Seq<char> {
    v.name + "="@ + text::decimal(v.value as nat)
}

pub open spec fn enum_entries(allowed: Seq<EnumValueView>) -> Seq<Seq<char>> {
    allowed.map_values(|v: EnumValueView| enum_entry(v))
}

/// The enumerated values on one line.
pub open spec fn enum_line(allowed: Seq<EnumValueView>) -> Seq<char> {
    text::join(enum_entries(allowed), ", "@)
}

/// The number of bytes that a line of enumerated values may have, without its indent and
/// its final comma.
pub const LINE_WIDTH: usize = 72;

/// The entries on one line.
pub open spec fn row_text(row: Seq<Seq<char>>) -> Seq<char> {
    text::join(row, ", "@)
}

/// The entries, line by line: one that does not fit on a line begins a new one.
pub open spec fn enum_rows(entries: Seq<Seq<char>>) -> Seq<Seq<Seq<char>>>
    decreases entries.len(),
{
    if entries.len() == 0 {
        Seq::empty()
    } else {
        let rows = enum_rows(entries.drop_last());
        let entry = entries.last();
        if rows.len() == 0 || text::byte_len(row_text(rows.last())) + 2 + text::byte_len(entry) > LINE_WIDTH {
            rows.push(seq![entry])
        } else {
            rows.drop_last().push(rows.last().push(entry))
        }
    }
}

/// The enumerated values on lines, each but the last with a comma at its end. The lines
/// after the first are indented to stand under it.
pub open spec fn enum_block(allowed: Seq<EnumValueView>) -> Seq<char> {
    text::join(row_texts(enum_rows(enum_entries(allowed))), ",\n              "@)
}

fn register_path_text(peripheral: &String, register: &String) -> (r: String)
    ensures
        r@ == register_path(peripheral@, register@),
{
    peripheral.clone().concat(".").concat(register.as_str())
}

fn field_path_text(peripheral: &String, register: &String, field: &String) -> (r: String)
    ensures
        r@ == field_path(peripheral@, register@, field@),
{
    peripheral.clone().concat(".").concat(register.as_str()).concat(".").concat(field.as_str())
}

pub fn enum_entry_text(v: &EnumValue) -> (r: String)
    ensures
        r@ == enum_entry(v@),
{
    v.name.clone().concat("=").concat(text::decimal_text(v.value).as_str())
}

pub fn enum_entries_text(allowed: &[EnumValue]) -> (r: Vec<String>)
    ensures
        text::views(r@) == enum_entries(text::views(allowed@)),
{
    let ghost all = text::views(allowed@);
    let mut out: Vec<String> = Vec::new();
    let mut i: usize = 0;
    while i < allowed.len()
        invariant
            i <= allowed@.len(),
            all == text::views(allowed@),
            text::views(out@) =~= enum_entries(all).take(i as int),
        decreases allowed.len() - i,
    {
        assert(all[i as int] == allowed@[i as int]@);
        out.push(enum_entry_text(&allowed[i]));
        i += 1;
    }
    assert(text::views(out@) =~= enum_entries(all));
    out
}

pub(crate) fn enum_line_text(allowed: &[EnumValue]) -> (r: String)
    ensures
        r@ == enum_line(text::views(allowed@)),
{
    text::join_text(&enum_entries_text(allowed), ", ")
}

/// The rows as texts.
pub open spec fn row_texts(rows: Seq<Seq<Seq<char>>>) -> Seq<Seq<char>> {
    rows.map_values(|row: Seq<Seq<char>>| row_text(row))
}

/// A text ends with its last line: what is added to the line is added to the text.
proof fn lemma_join_extend(parts: Seq<Seq<char>>, sep: Seq<char>, more: Seq<char>)
    requires
        parts.len() > 0,
    ensures
        text::join(parts.drop_last().push(parts.last() + more), sep) == text::join(parts, sep) + more,
{
    let longer = parts.drop_last().push(parts.last() + more);
    assert(longer.drop_last() =~= parts.drop_last());
    if parts.len() == 1 {
        assert(parts.drop_last() =~= Seq::<Seq<char>>::empty());
    } else {
        assert(text::join(longer, sep) =~= text::join(parts, sep) + more);
    }
}

proof fn lemma_join_push(parts: Seq<Seq<char>>, sep: Seq<char>, part: Seq<char>)
    requires
        parts.len() > 0,
    ensures
        text::join(parts.push(part), sep) == text::join(parts, sep) + sep + part,
{
    assert(parts.push(part).drop_last() =~= parts);
}

/// What one more entry adds to the text and to its last line.
pub proof fn lemma_entry_added(entries: Seq<Seq<char>>)
    requires
        entries.len() > 0,
    ensures
        ({
            let before = enum_rows(entries.drop_last());
            let after = enum_rows(entries);
            let entry = entries.last();
            let sep = ",\n              "@;
            &&& after.len() > 0
            &&& before.len() == 0 ==> text::join(row_texts(after), sep) == entry && row_text(after.last()) == entry
            &&& before.len() > 0 ==> {
                let col = text::byte_len(row_text(before.last()));
                if col + 2 + text::byte_len(entry) > LINE_WIDTH {
                    &&& text::join(row_texts(after), sep) == text::join(row_texts(before), sep) + sep + entry
                    &&& row_text(after.last()) == entry
                } else {
                    &&& text::join(row_texts(after), sep) == text::join(row_texts(before), sep) + ", "@ + entry
                    &&& text::byte_len(row_text(after.last())) == col + 2 + text::byte_len(entry)
                }
            }
        }),
{
    let before = enum_rows(entries.drop_last());
    let after = enum_rows(entries);
    let entry = entries.last();
    let sep = ",\n              "@;
    assert(row_text(seq![entry]) == entry);
    if before.len() == 0 {
        assert(row_texts(after) =~= seq![entry]);
    } else {
        let row = before.last();
        lemma_rows_not_empty(entries.drop_last());
        if text::byte_len(row_text(row)) + 2 + text::byte_len(entry) > LINE_WIDTH {
            assert(row_texts(after) =~= row_texts(before).push(entry));
            lemma_join_push(row_texts(before), sep, entry);
        } else {
            lemma_join_push(row, ", "@, entry);
            let more = ", "@ + entry;
            assert(row_text(row.push(entry)) =~= row_text(row) + more);
            assert(row_texts(after) =~= row_texts(before).drop_last().push(row_texts(before).last() + more));
            lemma_join_extend(row_texts(before), sep, more);
            assert(text::join(row_texts(before), sep) + more =~= text::join(row_texts(before), sep) + ", "@ + entry);
            reveal_strlit(", ");
            text::lemma_byte_len_concat(row_text(row), more);
            text::lemma_byte_len_concat(", "@, entry);
            vstd::utf8::is_ascii_chars_encode_utf8(", "@);
        }
    }
}

proof fn lemma_rows_not_empty(entries: Seq<Seq<char>>)
    ensures
        forall|i: int| 0 <= i < enum_rows(entries).len() ==> (#[trigger] enum_rows(entries)[i]).len() > 0,
    decreases entries.len(),
{
    if entries.len() > 0 {
        lemma_rows_not_empty(entries.drop_last());
        let before = enum_rows(entries.drop_last());
        let after = enum_rows(entries);
        assert forall|i: int| 0 <= i < after.len() implies (#[trigger] after[i]).len() > 0 by {
            if i < after.len() - 1 {
                assert(after[i] == before[i]);
            }
        }
    }
}

/// The enumerated values on lines that are not too long.
pub fn fmt_enum_list(allowed: &[EnumValue]) -> (r: String)
    ensures
        r@ == enum_block(text::views(allowed@)),
{
    let ghost all = enum_entries(text::views(allowed@));
    let ghost sep = ",\n              "@;
    let mut out = String::new();
    let mut col: usize = 0;
    let mut i: usize = 0;
    assert(all.take(0) =~= Seq::<Seq<char>>::empty());
    assert(row_texts(enum_rows(all.take(0))) =~= Seq::<Seq<char>>::empty());
    while i < allowed.len()
        invariant
            i <= allowed@.len(),
            sep == ",\n              "@,
            all == enum_entries(text::views(allowed@)),
            out@ == text::join(row_texts(enum_rows(all.take(i as int))), sep),
            i == 0 <==> enum_rows(all.take(i as int)).len() == 0,
            i > 0 ==> col == text::byte_len(row_text(enum_rows(all.take(i as int)).last())),
        decreases allowed.len() - i,
    {
        proof {
            assert(all.take(i + 1).drop_last() =~= all.take(i as int));
            assert(text::views(allowed@)[i as int] == allowed@[i as int]@);
            assert(all.take(i + 1).last() == enum_entry(allowed@[i as int]@));
            lemma_entry_added(all.take(i + 1));
        }
        let entry = enum_entry_text(&allowed[i]);
        let len: usize = text::byte_len_of(entry.as_str());
        if i == 0 {
            out = entry;
            col = len;
        } else if col > LINE_WIDTH || len > LINE_WIDTH || col + 2 + len > LINE_WIDTH {
            out.append(",\n              ");
            out.append(entry.as_str());
            col = len;
        } else {
            out.append(", ");
            out.append(entry.as_str());
            col = col + 2 + len;
        }
        i += 1;
    }
    assert(all.take(all.len() as int) =~= all);
    out
}

// ── Findings ─────────────────────────────────────────────────────────────────

impl IndexEvidenceView {
    pub open spec fn message(self) -> Seq<char> {
        match self {
            IndexEvidenceView::NoSuchRegister { peripheral, register } => register_path(peripheral, register)
                + " is not a register in the SVD"@,
            IndexEvidenceView::FieldTooNarrow { peripheral, register, field, bit_width } => field_path(
                peripheral,
                register,
                field,
            ) + " is "@ + text::decimal(bit_width as nat) + " bits wide in the SVD (max "@ + text::decimal(
                bits::low_mask(bit_width) as nat,
            ) + ")"@,
            IndexEvidenceView::NoSuchPwmChannel => "a PWM slice has the channels 0 and 1"@,
        }
    }
}

impl FindingKindView {
    /// The headline of a finding.
    pub open spec fn title(self) -> Seq<char> {
        match self {
            FindingKindView::NonexistentRegister { peripheral, register } => register_path(peripheral, register)
                + " — not a register in the SVD"@,
            FindingKindView::AddressNotARegister { peripheral, address } => "0x"@ + text::hex_padded(
                address as nat,
                8,
            ) + " is inside "@ + peripheral + "'s block but matches no register"@,
            FindingKindView::ValueExceedsRegisterWidth { peripheral, register, value, size_bits } => register_path(
                peripheral,
                register,
            ) + " — value 0x"@ + text::hex(value as nat) + " doesn't fit in "@ + text::decimal(size_bits as nat)
                + " bits"@,
            FindingKindView::ValueSetsUndefinedBits { peripheral, register, value, defined_mask } => register_path(
                peripheral,
                register,
            ) + " — value 0x"@ + text::hex(value as nat) + " sets bits outside all defined fields"@,
            FindingKindView::FieldValueNotInEnum { peripheral, register, field, value, allowed } => field_path(
                peripheral,
                register,
                field,
            ) + " — value "@ + text::decimal(value as nat) + " not in SVD enum"@,
            FindingKindView::WriteToReadOnlyRegister { peripheral, register } => register_path(peripheral, register)
                + " — read-only register written"@,
            FindingKindView::WriteToReadOnlyField { peripheral, register, field } => field_path(
                peripheral,
                register,
                field,
            ) + " — read-only field written"@,
            FindingKindView::HalCallPinOutOfRange { function, pin } => function + "(GPIO"@ + text::decimal(
                pin as nat,
            ) + ") — pin doesn't exist (RP2040 has GPIO0..GPIO29)"@,
            FindingKindView::HalCallFuncselNotInEnum { pin, func, allowed } => "gpio_set_function(GPIO"@
                + text::decimal(pin as nat) + ", "@ + text::decimal(func as nat) + ") — func not in SVD enum"@,
            FindingKindView::HalCallIndexOutOfRange { function, arg_index, index, evidence } => function
                + " — argument "@ + text::decimal(arg_index as nat) + ": index "@ + text::decimal(index as nat)
                + " is out of range"@,
            FindingKindView::HalCallInstanceNotInSvd { function, instance, peripheral } => function + "("@ + instance
                + ") — no peripheral "@ + peripheral + " in the SVD"@,
        }
    }

    /// The evidence for a finding, where the headline does not hold all of it.
    pub open spec fn citation(self) -> Option<Seq<char>> {
        match self {
            FindingKindView::ValueExceedsRegisterWidth { peripheral, register, value, size_bits } => Some(
                "SVD: "@ + register_path(peripheral, register) + " — "@ + text::decimal(size_bits as nat)
                    + "-bit register (max 0x"@ + text::hex(bits::low_mask(size_bits) as nat) + ")"@,
            ),
            FindingKindView::ValueSetsUndefinedBits { peripheral, register, value, defined_mask } => Some(
                "SVD: "@ + register_path(peripheral, register) + " — defined bits: 0x"@ + text::hex_padded(
                    defined_mask as nat,
                    8,
                ),
            ),
            FindingKindView::FieldValueNotInEnum { peripheral, register, field, value, allowed } => Some(
                "SVD: "@ + field_path(peripheral, register, field) + "\n     allowed: "@ + enum_block(allowed),
            ),
            FindingKindView::WriteToReadOnlyRegister { peripheral, register } => Some(
                "SVD: "@ + register_path(peripheral, register) + " — access = read-only"@,
            ),
            FindingKindView::WriteToReadOnlyField { peripheral, register, field } => Some(
                "SVD: "@ + field_path(peripheral, register, field) + " — access = read-only"@,
            ),
            FindingKindView::HalCallFuncselNotInEnum { pin, func, allowed } => Some(
                "SVD: IO_BANK0.GPIO"@ + text::decimal(pin as nat) + "_CTRL.FUNCSEL\n     allowed: "@ + enum_block(
                    allowed,
                ),
            ),
            FindingKindView::HalCallIndexOutOfRange { function, arg_index, index, evidence } => Some(
                "SVD: "@ + evidence.message(),
            ),
            _ => None,
        }
    }

    /// The explanation of a finding, with the SVD facts that back it.
    pub open spec fn message(self) -> Seq<char> {
        match self {
            FindingKindView::NonexistentRegister { peripheral, register } => register_path(peripheral, register)
                + " is not a register defined in the SVD for "@ + peripheral,
            FindingKindView::AddressNotARegister { peripheral, address } => "address 0x"@ + text::hex_padded(
                address as nat,
                8,
            ) + " falls inside "@ + peripheral
                + "'s address block but matches no register's start address in the SVD"@,
            FindingKindView::ValueExceedsRegisterWidth { peripheral, register, value, size_bits } => "value 0x"@
                + text::hex(value as nat) + " written to "@ + register_path(peripheral, register)
                + " does not fit in its "@ + text::decimal(size_bits as nat) + "-bit width"@,
            FindingKindView::ValueSetsUndefinedBits { peripheral, register, value, defined_mask } => "value 0x"@
                + text::hex(value as nat) + " written to "@ + register_path(peripheral, register)
                + " sets bits outside the fields the SVD defines for it (defined bits: 0x"@ + text::hex(
                defined_mask as nat,
            ) + ")"@,
            FindingKindView::FieldValueNotInEnum { peripheral, register, field, value, allowed } => "value "@
                + text::decimal(value as nat) + " written to "@ + field_path(peripheral, register, field)
                + " is not one of the SVD's allowed values: "@ + enum_line(allowed),
            FindingKindView::WriteToReadOnlyRegister { peripheral, register } => register_path(peripheral, register)
                + " is read-only in the SVD, but firmware writes to it"@,
            FindingKindView::WriteToReadOnlyField { peripheral, register, field } => field_path(
                peripheral,
                register,
                field,
            ) + " is read-only in the SVD, but firmware sets bits within it"@,
            FindingKindView::HalCallPinOutOfRange { function, pin } => function + ": pin "@ + text::decimal(
                pin as nat,
            ) + " is out of range — the RP2040 has GPIO0..GPIO29"@,
            FindingKindView::HalCallFuncselNotInEnum { pin, func, allowed } => "gpio_set_function: func value "@
                + text::decimal(func as nat) + " is not a valid FUNCSEL for GPIO"@ + text::decimal(pin as nat)
                + " — SVD IO_BANK0.GPIO"@ + text::decimal(pin as nat) + "_CTRL.FUNCSEL allows: "@ + enum_line(
                allowed,
            ),
            FindingKindView::HalCallIndexOutOfRange { function, arg_index, index, evidence } => function
                + ": argument "@ + text::decimal(arg_index as nat) + " has the index "@ + text::decimal(
                index as nat,
            ) + ", which is out of range — "@ + evidence.message(),
            FindingKindView::HalCallInstanceNotInSvd { function, instance, peripheral } => function + ": instance "@
                + instance + " does not exist — the SVD has no peripheral "@ + peripheral,
        }
    }
}

impl IndexEvidence {
    fn message_text(&self) -> (r: String)
        ensures
            r@ == self@.message(),
    {
        match self {
            IndexEvidence::NoSuchRegister { peripheral, register } => register_path_text(peripheral, register).concat(
                " is not a register in the SVD",
            ),
            IndexEvidence::FieldTooNarrow { peripheral, register, field, bit_width } => field_path_text(
                peripheral,
                register,
                field,
            ).concat(" is ").concat(text::decimal_text(*bit_width as u64).as_str()).concat(
                " bits wide in the SVD (max ",
            ).concat(text::decimal_text(bits::width_mask(*bit_width)).as_str()).concat(")"),
            IndexEvidence::NoSuchPwmChannel => "a PWM slice has the channels 0 and 1".to_owned(),
        }
    }
}

impl FindingKind {
    /// A short headline, without long lists of values.
    pub fn title(&self) -> (r: String)
        ensures
            r@ == self@.title(),
    {
        match self {
            FindingKind::NonexistentRegister { peripheral, register } => register_path_text(
                peripheral,
                register,
            ).concat(" — not a register in the SVD"),
            FindingKind::AddressNotARegister { peripheral, address } => "0x".to_owned().concat(
                text::hex_padded_text(*address, 8).as_str(),
            ).concat(" is inside ").concat(peripheral.as_str()).concat("'s block but matches no register"),
            FindingKind::ValueExceedsRegisterWidth { peripheral, register, value, size_bits } => register_path_text(
                peripheral,
                register,
            ).concat(" — value 0x").concat(text::hex_text(*value).as_str()).concat(" doesn't fit in ").concat(
                text::decimal_text(*size_bits as u64).as_str(),
            ).concat(" bits"),
            FindingKind::ValueSetsUndefinedBits { peripheral, register, value, .. } => register_path_text(
                peripheral,
                register,
            ).concat(" — value 0x").concat(text::hex_text(*value).as_str()).concat(
                " sets bits outside all defined fields",
            ),
            FindingKind::FieldValueNotInEnum { peripheral, register, field, value, .. } => field_path_text(
                peripheral,
                register,
                field,
            ).concat(" — value ").concat(text::decimal_text(*value).as_str()).concat(" not in SVD enum"),
            FindingKind::WriteToReadOnlyRegister { peripheral, register } => register_path_text(
                peripheral,
                register,
            ).concat(" — read-only register written"),
            FindingKind::WriteToReadOnlyField { peripheral, register, field } => field_path_text(
                peripheral,
                register,
                field,
            ).concat(" — read-only field written"),
            FindingKind::HalCallPinOutOfRange { function, pin } => function.clone().concat("(GPIO").concat(
                text::decimal_text(*pin).as_str(),
            ).concat(") — pin doesn't exist (RP2040 has GPIO0..GPIO29)"),
            FindingKind::HalCallFuncselNotInEnum { pin, func, .. } => "gpio_set_function(GPIO".to_owned().concat(
                text::decimal_text(*pin).as_str(),
            ).concat(", ").concat(text::decimal_text(*func).as_str()).concat(") — func not in SVD enum"),
            FindingKind::HalCallIndexOutOfRange { function, arg_index, index, .. } => function.clone().concat(
                " — argument ",
            ).concat(text::decimal_text(*arg_index as u64).as_str()).concat(": index ").concat(
                text::decimal_text(*index).as_str(),
            ).concat(" is out of range"),
            FindingKind::HalCallInstanceNotInSvd { function, instance, peripheral } => function.clone().concat(
                "(",
            ).concat(instance.as_str()).concat(") — no peripheral ").concat(peripheral.as_str()).concat(
                " in the SVD",
            ),
        }
    }

    /// The SVD evidence. `None` where the headline holds all the relevant facts.
    pub fn citation(&self) -> (r: Option<String>)
        ensures
            text::option_view(r) == self@.citation(),
    {
        match self {
            FindingKind::ValueExceedsRegisterWidth { peripheral, register, size_bits, .. } => Some(
                "SVD: ".to_owned().concat(register_path_text(peripheral, register).as_str()).concat(" — ").concat(
                    text::decimal_text(*size_bits as u64).as_str(),
                ).concat("-bit register (max 0x").concat(
                    text::hex_text(bits::width_mask(*size_bits)).as_str(),
                ).concat(")"),
            ),
            FindingKind::ValueSetsUndefinedBits { peripheral, register, defined_mask, .. } => Some(
                "SVD: ".to_owned().concat(register_path_text(peripheral, register).as_str()).concat(
                    " — defined bits: 0x",
                ).concat(text::hex_padded_text(*defined_mask, 8).as_str()),
            ),
            FindingKind::FieldValueNotInEnum { peripheral, register, field, allowed, .. } => Some(
                "SVD: ".to_owned().concat(field_path_text(peripheral, register, field).as_str()).concat(
                    "\n     allowed: ",
                ).concat(fmt_enum_list(allowed).as_str()),
            ),
            FindingKind::WriteToReadOnlyRegister { peripheral, register } => Some(
                "SVD: ".to_owned().concat(register_path_text(peripheral, register).as_str()).concat(
                    " — access = read-only",
                ),
            ),
            FindingKind::WriteToReadOnlyField { peripheral, register, field } => Some(
                "SVD: ".to_owned().concat(field_path_text(peripheral, register, field).as_str()).concat(
                    " — access = read-only",
                ),
            ),
            FindingKind::HalCallFuncselNotInEnum { pin, allowed, .. } => Some(
                "SVD: IO_BANK0.GPIO".to_owned().concat(text::decimal_text(*pin).as_str()).concat(
                    "_CTRL.FUNCSEL\n     allowed: ",
                ).concat(fmt_enum_list(allowed).as_str()),
            ),
            FindingKind::HalCallIndexOutOfRange { evidence, .. } => Some(
                "SVD: ".to_owned().concat(evidence.message_text().as_str()),
            ),
            _ => None,
        }
    }

    /// An explanation in plain words, with the SVD facts that back it.
    pub fn to_string(&self) -> (r: String)
        ensures
            r@ == self@.message(),
    {
        match self {
            FindingKind::NonexistentRegister { peripheral, register } => register_path_text(
                peripheral,
                register,
            ).concat(" is not a register defined in the SVD for ").concat(peripheral.as_str()),
            FindingKind::AddressNotARegister { peripheral, address } => "address 0x".to_owned().concat(
                text::hex_padded_text(*address, 8).as_str(),
            ).concat(" falls inside ").concat(peripheral.as_str()).concat(
                "'s address block but matches no register's start address in the SVD",
            ),
            FindingKind::ValueExceedsRegisterWidth { peripheral, register, value, size_bits } => {
                "value 0x".to_owned().concat(text::hex_text(*value).as_str()).concat(" written to ").concat(
                    register_path_text(peripheral, register).as_str(),
                ).concat(" does not fit in its ").concat(text::decimal_text(*size_bits as u64).as_str()).concat(
                    "-bit width",
                )
            },
            FindingKind::ValueSetsUndefinedBits { peripheral, register, value, defined_mask } => {
                "value 0x".to_owned().concat(text::hex_text(*value).as_str()).concat(" written to ").concat(
                    register_path_text(peripheral, register).as_str(),
                ).concat(" sets bits outside the fields the SVD defines for it (defined bits: 0x").concat(
                    text::hex_text(*defined_mask).as_str(),
                ).concat(")")
            },
            FindingKind::FieldValueNotInEnum { peripheral, register, field, value, allowed } => {
                "value ".to_owned().concat(text::decimal_text(*value).as_str()).concat(" written to ").concat(
                    field_path_text(peripheral, register, field).as_str(),
                ).concat(" is not one of the SVD's allowed values: ").concat(enum_line_text(allowed).as_str())
            },
            FindingKind::WriteToReadOnlyRegister { peripheral, register } => register_path_text(
                peripheral,
                register,
            ).concat(" is read-only in the SVD, but firmware writes to it"),
            FindingKind::WriteToReadOnlyField { peripheral, register, field } => field_path_text(
                peripheral,
                register,
                field,
            ).concat(" is read-only in the SVD, but firmware sets bits within it"),
            FindingKind::HalCallPinOutOfRange { function, pin } => function.clone().concat(": pin ").concat(
                text::decimal_text(*pin).as_str(),
            ).concat(" is out of range — the RP2040 has GPIO0..GPIO29"),
            FindingKind::HalCallFuncselNotInEnum { pin, func, allowed } => {
                "gpio_set_function: func value ".to_owned().concat(text::decimal_text(*func).as_str()).concat(
                    " is not a valid FUNCSEL for GPIO",
                ).concat(text::decimal_text(*pin).as_str()).concat(" — SVD IO_BANK0.GPIO").concat(
                    text::decimal_text(*pin).as_str(),
                ).concat("_CTRL.FUNCSEL allows: ").concat(enum_line_text(allowed).as_str())
            },
            FindingKind::HalCallIndexOutOfRange { function, arg_index, index, evidence } => function.clone().concat(
                ": argument ",
            ).concat(text::decimal_text(*arg_index as u64).as_str()).concat(" has the index ").concat(
                text::decimal_text(*index).as_str(),
            ).concat(", which is out of range — ").concat(evidence.message_text().as_str()),
            FindingKind::HalCallInstanceNotInSvd { function, instance, peripheral } => function.clone().concat(
                ": instance ",
            ).concat(instance.as_str()).concat(" does not exist — the SVD has no peripheral ").concat(
                peripheral.as_str(),
            ),
        }
    }
}

// ── Notes ────────────────────────────────────────────────────────────────────

impl NoteView {
    /// The note in plain words.
    pub open spec fn message(self) -> Seq<char> {
        match self {
            NoteView::UnresolvedAccess => "access target is not statically determinable"@,
            NoteView::UnknownPeripheralGuess { peripheral } => "no SVD peripheral named "@ + peripheral
                + "; likely not a register access"@,
            NoteView::PeripheralOnlyKnown { peripheral } => "peripheral "@ + peripheral
                + " resolved, but no register name was determinable"@,
            NoteView::AddressNotMapped { address } => "address 0x"@ + text::hex_padded(address as nat, 8)
                + " is not within any peripheral's address block"@,
            NoteView::FieldUnverifiableNoEnum { peripheral, register, field } => field_path(
                peripheral,
                register,
                field,
            ) + " has no enumerated values in the SVD; value membership is unverifiable"@,
            NoteView::RegisterHasNoFields { peripheral, register } => register_path(peripheral, register)
                + " has no fields defined in the SVD; bit-level checks skipped"@,
            NoteView::ValueNotDeterminableForOp { peripheral, register } => "the resulting value written to "@
                + register_path(peripheral, register) + " isn't statically determinable for this operator"@,
            NoteView::ValueNotStaticallyKnown { peripheral, register } => "the value written to "@ + register_path(
                peripheral,
                register,
            ) + " isn't a compile-time constant — check skipped"@,
            NoteView::HalCallArgUnknown { function, arg_index } => function + ": argument "@ + text::decimal(
                arg_index as nat,
            ) + " isn't a compile-time constant — check skipped"@,
        }
    }
}

impl Note {
    pub fn to_string(&self) -> (r: String)
        ensures
            r@ == self@.message(),
    {
        match self {
            Note::UnresolvedAccess => "access target is not statically determinable".to_owned(),
            Note::UnknownPeripheralGuess { peripheral } => "no SVD peripheral named ".to_owned().concat(
                peripheral.as_str(),
            ).concat("; likely not a register access"),
            Note::PeripheralOnlyKnown { peripheral } => "peripheral ".to_owned().concat(peripheral.as_str()).concat(
                " resolved, but no register name was determinable",
            ),
            Note::AddressNotMapped { address } => "address 0x".to_owned().concat(
                text::hex_padded_text(*address, 8).as_str(),
            ).concat(" is not within any peripheral's address block"),
            Note::FieldUnverifiableNoEnum { peripheral, register, field } => field_path_text(
                peripheral,
                register,
                field,
            ).concat(" has no enumerated values in the SVD; value membership is unverifiable"),
            Note::RegisterHasNoFields { peripheral, register } => register_path_text(peripheral, register).concat(
                " has no fields defined in the SVD; bit-level checks skipped",
            ),
            Note::ValueNotDeterminableForOp { peripheral, register } => {
                "the resulting value written to ".to_owned().concat(
                    register_path_text(peripheral, register).as_str(),
                ).concat(" isn't statically determinable for this operator")
            },
            Note::ValueNotStaticallyKnown { peripheral, register } => "the value written to ".to_owned().concat(
                register_path_text(peripheral, register).as_str(),
            ).concat(" isn't a compile-time constant — check skipped"),
            Note::HalCallArgUnknown { function, arg_index } => function.clone().concat(": argument ").concat(
                text::decimal_text(*arg_index as u64).as_str(),
            ).concat(" isn't a compile-time constant — check skipped"),
        }
    }
}

// ── What holds of every list of values ───────────────────────────────────────

/// The entries of all rows, one after the other.
pub open spec fn entries_of_rows(rows: Seq<Seq<Seq<char>>>) -> Seq<Seq<char>>
    decreases rows.len(),
{
    if rows.len() == 0 {
        Seq::empty()
    } else {
        entries_of_rows(rows.drop_last()) + rows.last()
    }
}

/// Every line of enumerated values has at most `LINE_WIDTH` bytes, or holds a single
/// value; and the lines hold all the values, in order.
pub proof fn lines_of_values_are_not_too_long(entries: Seq<Seq<char>>)
    ensures
        entries_of_rows(enum_rows(entries)) == entries,
        forall|i: int|
            0 <= i < enum_rows(entries).len() ==> text::byte_len(row_text(#[trigger] enum_rows(entries)[i]))
                <= LINE_WIDTH || enum_rows(entries)[i].len() == 1,
    decreases entries.len(),
{
    if entries.len() > 0 {
        lines_of_values_are_not_too_long(entries.drop_last());
        lemma_entry_added(entries);
        let before = enum_rows(entries.drop_last());
        let after = enum_rows(entries);
        assert(after.drop_last() =~= before || after.drop_last() =~= before.drop_last());
        assert(entries.drop_last().push(entries.last()) =~= entries);
        assert(entries_of_rows(after) =~= entries) by {
            if after.len() > before.len() {
                assert(after.drop_last() =~= before);
            } else {
                assert(after.drop_last() =~= before.drop_last());
            }
        }
        assert forall|i: int| 0 <= i < after.len() implies text::byte_len(row_text(#[trigger] after[i]))
            <= LINE_WIDTH || after[i].len() == 1 by {
            if i < after.len() - 1 {
                assert(after[i] == before[i]);
            }
        }
    }
}

/// The parts of a text between commas, without white space at their ends.
pub open spec fn comma_list(s: Seq<char>) -> Seq<Seq<char>> {
    let (parts, rest) = text::cut(s, ',');
    if parts.len() == 0 && rest.len() == 0 {
        Seq::empty()
    } else {
        parts.push(rest).map_values(|p: Seq<char>| text::trim(p))
    }
}

proof fn lemma_commas_plain(a: Seq<char>, b: Seq<char>)
    requires
        forall|i: int| 0 <= i < b.len() ==> #[trigger] b[i] != ',',
    ensures
        text::cut(a + b, ',') == (text::cut(a, ',').0, text::cut(a, ',').1 + b),
    decreases b.len(),
{
    if b.len() == 0 {
        assert(a + b =~= a);
        assert(text::cut(a, ',').1 + b =~= text::cut(a, ',').1);
    } else {
        assert((a + b).drop_last() =~= a + b.drop_last());
        assert((a + b).last() == b[b.len() - 1]);
        lemma_commas_plain(a, b.drop_last());
        assert((text::cut(a, ',').1 + b.drop_last()).push(b.last()) =~= text::cut(a, ',').1 + b);
    }
}

proof fn lemma_commas_sep(a: Seq<char>, space: Seq<char>, entry: Seq<char>)
    requires
        forall|i: int| 0 <= i < entry.len() ==> #[trigger] entry[i] != ',',
        forall|i: int| 0 <= i < space.len() ==> #[trigger] space[i] != ',',
    ensures
        text::cut(a + (seq![','] + space) + entry, ',') == (text::cut(a, ',').0.push(text::cut(a, ',').1), space + entry),
{
    let b = space + entry;
    assert(a + (seq![','] + space) + entry =~= a.push(',') + b);
    assert(a.push(',').drop_last() =~= a);
    lemma_commas_plain(a.push(','), b);
    assert(Seq::<char>::empty() + b =~= b);
}

proof fn lemma_trim_indented(space: Seq<char>, entry: Seq<char>)
    requires
        forall|i: int| 0 <= i < space.len() ==> text::is_space(#[trigger] space[i]),
        forall|i: int| 0 <= i < entry.len() ==> !text::is_space(#[trigger] entry[i]),
        entry.len() > 0,
    ensures
        text::trim(space + entry) == entry,
    decreases space.len(),
{
    if space.len() == 0 {
        assert(space + entry =~= entry);
        assert(entry.last() == entry[entry.len() - 1]);
    } else {
        assert((space + entry)[0] == space[0]);
        assert((space + entry).drop_first() =~= space.drop_first() + entry);
        lemma_trim_indented(space.drop_first(), entry);
    }
}

/// A list of values, split at its commas, gives back the values, in order and none
/// dropped: a comma stands between neighbours also where the list goes on in a new line.
pub proof fn values_are_separated_by_commas(entries: Seq<Seq<char>>)
    requires
        forall|k: int, i: int|
            #![trigger entries[k][i]]
            0 <= k < entries.len() && 0 <= i < entries[k].len() ==> entries[k][i] != ',' && !text::is_space(
                entries[k][i],
            ),
        forall|k: int| 0 <= k < entries.len() ==> (#[trigger] entries[k]).len() > 0,
    ensures
        comma_list(text::join(row_texts(enum_rows(entries)), ",\n              "@)) == entries,
    decreases entries.len(),
{
    let sep = ",\n              "@;
    let whole = text::join(row_texts(enum_rows(entries)), sep);
    if entries.len() == 0 {
        assert(row_texts(enum_rows(entries)) =~= Seq::<Seq<char>>::empty());
        assert(comma_list(whole) =~= entries);
    } else {
        let rest = entries.drop_last();
        let entry = entries.last();
        assert(entry == entries[entries.len() - 1]);
        assert forall|k: int, i: int|
            #![trigger rest[k][i]]
            0 <= k < rest.len() && 0 <= i < rest[k].len() implies rest[k][i] != ',' && !text::is_space(rest[k][i]) by {
            assert(rest[k][i] == entries[k][i]);
        }
        assert forall|k: int| 0 <= k < rest.len() implies (#[trigger] rest[k]).len() > 0 by {
            assert(rest[k] == entries[k]);
        }
        assert forall|i: int| 0 <= i < entry.len() implies #[trigger] entry[i] != ',' && !text::is_space(entry[i]) by {
            assert(entries[entries.len() - 1][i] == entry[i]);
        }
        values_are_separated_by_commas(rest);
        lemma_entry_added(entries);
        let before = text::join(row_texts(enum_rows(rest)), sep);
        if rest.len() == 0 {
            lemma_commas_plain(Seq::empty(), entry);
            assert(Seq::<char>::empty() + entry =~= entry);
            lemma_trim_indented(Seq::empty(), entry);
            assert(comma_list(whole) =~= entries);
        } else {
            lemma_rows_exist(rest);
            reveal_strlit(",\n              ");
            reveal_strlit(", ");
            let space = if whole == before + sep + entry {
                sep.drop_first()
            } else {
                ", "@.drop_first()
            };
            assert(sep =~= seq![','] + sep.drop_first());
            assert(", "@ =~= seq![','] + ", "@.drop_first());
            assert forall|i: int| 0 <= i < space.len() implies text::is_space(#[trigger] space[i]) && space[i]
                != ',' by {}
            assert(whole == before + (seq![','] + space) + entry);
            lemma_commas_sep(before, space, entry);
            lemma_trim_indented(space, entry);
            let (parts, last) = text::cut(before, ',');
            lemma_not_empty(before, rest);
            assert(comma_list(whole) =~= comma_list(before).push(entry));
            assert(entries =~= rest.push(entry));
        }
    }
}

proof fn lemma_not_empty(s: Seq<char>, entries: Seq<Seq<char>>)
    requires
        comma_list(s) == entries,
        entries.len() > 0,
    ensures
        text::cut(s, ',').0.len() > 0 || text::cut(s, ',').1.len() > 0,
{
}

proof fn lemma_rows_exist(entries: Seq<Seq<char>>)
    requires
        entries.len() > 0,
    ensures
        enum_rows(entries).len() > 0,
{
}

proof fn lemma_digits_are_bare(n: nat)
    ensures
        forall|i: int| 0 <= i < text::decimal(n).len() ==> '0' <= #[trigger] text::decimal(n)[i] <= '9',
    decreases n,
{
    if n >= 10 {
        vstd::arithmetic::div_mod::lemma_div_decreases(n as int, 10);
        vstd::arithmetic::div_mod::lemma_mod_bound(n as int, 10);
        lemma_digits_are_bare(n / 10);
        assert(text::decimal(n) == text::decimal(n / 10).push(text::digit_char(n % 10)));
    }
}

/// A list of enumerated values, split at its commas, gives back every `name=value`, in
/// order and none dropped, where no name holds a comma or white space.
pub proof fn enumerated_values_read_back(allowed: Seq<EnumValueView>)
    requires
        forall|k: int, i: int|
            #![trigger allowed[k].name[i]]
            0 <= k < allowed.len() && 0 <= i < allowed[k].name.len() ==> allowed[k].name[i] != ',' && !text::is_space(
                allowed[k].name[i],
            ),
    ensures
        comma_list(enum_block(allowed)) == enum_entries(allowed),
{
    let entries = enum_entries(allowed);
    reveal_strlit("=");
    assert forall|k: int, i: int|
        #![trigger entries[k][i]]
        0 <= k < entries.len() && 0 <= i < entries[k].len() implies entries[k][i] != ',' && !text::is_space(
        entries[k][i],
    ) by {
        let v = allowed[k];
        let digits = text::decimal(v.value as nat);
        lemma_digits_are_bare(v.value as nat);
        assert(entries[k] == v.name + "="@ + digits);
        if i < v.name.len() {
            assert(entries[k][i] == allowed[k].name[i]);
        } else if i == v.name.len() {
            assert(entries[k][i] == '=');
        } else {
            assert(entries[k][i] == digits[i - v.name.len() - 1]);
        }
    }
    assert forall|k: int| 0 <= k < entries.len() implies (#[trigger] entries[k]).len() > 0 by {
        assert(entries[k] == allowed[k].name + "="@ + text::decimal(allowed[k].value as nat));
    }
    values_are_separated_by_commas(entries);
}

} // verus!
