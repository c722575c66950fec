//! Listings of what the SVD defines.

use vstd::prelude::*;

use crate::explain;
use crate::messages;
use crate::order;
use crate::order::SortKey;
use crate::path_order;
use crate::svd::Access;
use crate::svd_model;
use crate::svd_model::{
    EnumValue, EnumValueView, FieldModel, FieldView, Model, ModelView, PeripheralModel, PeripheralView,
    RegisterModel, RegisterView,
};
use crate::text;

verus! {

broadcast use crate::text::group_views;

// ── The order of the rows ────────────────────────────────────────────────────

/// Peripherals are listed by name.
impl<'a> SortKey for &'a PeripheralModel {
    open spec fn precedes(a: PeripheralView, b: PeripheralView) -> bool {
        path_order::text_before(a.name, b.name)
    }

    proof fn lemma_asymmetric(a: PeripheralView, b: PeripheralView) {
        path_order::lemma_text_asymmetric(a.name, b.name);
    }

    proof fn lemma_between(a: PeripheralView, b: PeripheralView, c: PeripheralView) {
        path_order::lemma_text_between(a.name, b.name, c.name);
    }

    fn is_before(&self, other: &Self) -> (r: bool) {
        path_order::text_is_before(self.name.as_str(), other.name.as_str())
    }
}

/// Registers are listed by offset.
impl<'a> SortKey for &'a RegisterModel {
    open spec fn precedes(a: RegisterView, b: RegisterView) -> bool {
        a.address_offset < b.address_offset
    }

    proof fn lemma_asymmetric(a: RegisterView, b: RegisterView) {
    }

    proof fn lemma_between(a: RegisterView, b: RegisterView, c: RegisterView) {
    }

    fn is_before(&self, other: &Self) -> (r: bool) {
        self.address_offset < other.address_offset
    }
}

/// Fields are listed by their lowest bit.
impl<'a> SortKey for &'a FieldModel {
    open spec fn precedes(a: FieldView, b: FieldView) -> bool {
        a.bit_offset < b.bit_offset
    }

    proof fn lemma_asymmetric(a: FieldView, b: FieldView) {
    }

    proof fn lemma_between(a: FieldView, b: FieldView, c: FieldView) {
    }

    fn is_before(&self, other: &Self) -> (r: bool) {
        self.bit_offset < other.bit_offset
    }
}

pub open spec fn by_name(peripherals: Seq<PeripheralView>) -> Seq<PeripheralView> {
    order::sorted::<&PeripheralModel>(peripherals)
}

pub open spec fn by_offset(registers: Seq<RegisterView>) -> Seq<RegisterView> {
    order::sorted::<&RegisterModel>(registers)
}

pub open spec fn by_bit(fields: Seq<FieldView>) -> Seq<FieldView> {
    order::sorted::<&FieldModel>(fields)
}

fn references<'a, T: View>(items: &'a [T]) -> (r: Vec<&'a T>)
    ensures
        text::views(r@) == text::views(items@),
{
    let ghost all = text::views(items@);
    let mut out: Vec<&'a T> = Vec::new();
    let mut i: usize = 0;
    while i < items.len()
        invariant
            i <= items@.len(),
            all == text::views(items@),
            text::views(out@) =~= all.take(i as int),
        decreases items.len() - i,
    {
        out.push(&items[i]);
        i += 1;
    }
    assert(all.take(all.len() as int) =~= all);
    out
}

// ── Cells ────────────────────────────────────────────────────────────────────

pub open spec fn access_name(access: Access) -> Seq<char> {
    match access {
        Access::ReadOnly => "readonly"@,
        Access::ReadWrite => "readwrite"@,
        Access::ReadWriteOnce => "readwriteonce"@,
        Access::WriteOnce => "writeonce"@,
        Access::WriteOnly => "writeonly"@,
    }
}

fn access_text(access: Access) -> (r: &'static str)
    ensures
        r@ == access_name(access),
{
    match access {
        Access::ReadOnly => "readonly",
        Access::ReadWrite => "readwrite",
        Access::ReadWriteOnce => "readwriteonce",
        Access::WriteOnce => "writeonce",
        Access::WriteOnly => "writeonly",
    }
}

/// The access of a field, in short.
pub open spec fn short_access_name(access: Access) -> Seq<char> {
    match access {
        Access::ReadOnly => "ro"@,
        Access::ReadWrite => "rw"@,
        Access::ReadWriteOnce => "rw-once"@,
        Access::WriteOnce => "w-once"@,
        Access::WriteOnly => "wo"@,
    }
}

fn short_access_text(access: Access) -> (r: &'static str)
    ensures
        r@ == short_access_name(access),
{
    match access {
        Access::ReadOnly => "ro",
        Access::ReadWrite => "rw",
        Access::ReadWriteOnce => "rw-once",
        Access::WriteOnce => "w-once",
        Access::WriteOnly => "wo",
    }
}

/// The bits of a field: `[7]`, or `[highest:lowest]`.
pub open spec fn bit_range(f: FieldView) -> Seq<char> {
    let high: int = if f.bit_offset + f.bit_width == 0 {
        0
    } else {
        f.bit_offset + f.bit_width - 1
    };
    if f.bit_width == 1 {
        "["@ + text::decimal(f.bit_offset as nat) + "]"@
    } else {
        "["@ + text::decimal(high as nat) + ":"@ + text::decimal(f.bit_offset as nat) + "]"@
    }
}

fn bit_range_text(f: &FieldModel) -> (r: String)
    ensures
        r@ == bit_range(f@),
{
    let end: u64 = f.bit_offset as u64 + f.bit_width as u64;
    let high: u64 = if end == 0 {
        0
    } else {
        end - 1
    };
    let low = text::decimal_text(f.bit_offset as u64);
    if f.bit_width == 1 {
        "[".to_owned().concat(low.as_str()).concat("]")
    } else {
        "[".to_owned().concat(text::decimal_text(high).as_str()).concat(":").concat(low.as_str()).concat("]")
    }
}

/// The first entries of a list, as many as fit in `n` bytes, and at least one.
pub open spec fn fitting_entries(entries: Seq<Seq<char>>, n: nat) -> Seq<char>
    decreases entries.len(),
{
    if entries.len() <= 1 || text::byte_len(text::join(entries, ", "@)) <= n {
        text::join(entries, ", "@)
    } else {
        fitting_entries(entries.drop_last(), n)
    }
}

fn fitting_entries_text(entries: Vec<String>, n: usize) -> (r: String)
    ensures
        r@ == fitting_entries(text::views(entries@), n as nat),
{
    let ghost all = text::views(entries@);
    let mut left = entries;
    loop
        invariant
            all == text::views(entries@),
            fitting_entries(all, n as nat) == fitting_entries(text::views(left@), n as nat),
        decreases left@.len(),
    {
        let joined = text::join_text(&left, ", ");
        if left.len() <= 1 || text::byte_len_of(joined.as_str()) <= n {
            return joined;
        }
        let ghost before = text::views(left@);
        let _ = left.pop();
        assert(text::views(left@) =~= before.drop_last());
    }
}

/// The allowed values of a field; a long list is cut after a whole entry.
pub open spec fn allowed_cell(allowed: Option<Seq<EnumValueView>>, color: bool) -> Seq<char> {
    match allowed {
        Some(values) => {
            let all = messages::enum_line(values);
            if text::byte_len(all) > 50 {
                fitting_entries(messages::enum_entries(values), 47) + " … ("@ + text::decimal(values.len()) + " values)"@
            } else {
                all
            }
        },
        None => dim(color) + "(no SVD enum)"@ + reset(color),
    }
}

fn allowed_cell_text(allowed: &Option<Vec<EnumValue>>, color: bool) -> (r: String)
    ensures
        r@ == allowed_cell(
            match *allowed {
                Some(values) => Some(text::views(values@)),
                None => None,
            },
            color,
        ),
{
    match allowed {
        Some(values) => {
            let all = messages::enum_line_text(values);
            if text::byte_len_of(all.as_str()) > 50 {
                fitting_entries_text(messages::enum_entries_text(values), 47).concat(" … (").concat(
                    text::decimal_text(values.len() as u64).as_str(),
                ).concat(" values)")
            } else {
                all
            }
        },
        None => explain::code_text(color, "\x1b[2m").to_owned().concat("(no SVD enum)").concat(
            explain::code_text(color, "\x1b[0m"),
        ),
    }
}

pub open spec fn bold(color: bool) -> Seq<char> {
    explain::code(color, "\x1b[1m"@)
}

pub open spec fn dim(color: bool) -> Seq<char> {
    explain::code(color, "\x1b[2m"@)
}

pub open spec fn cyan(color: bool) -> Seq<char> {
    explain::code(color, "\x1b[36m"@)
}

pub open spec fn reset(color: bool) -> Seq<char> {
    explain::code(color, "\x1b[0m"@)
}

/// A rule under the head of a table.
pub open spec fn table_rule(n: nat, color: bool) -> Seq<char> {
    " "@ + dim(color) + text::fill('─', n) + reset(color) + "\n"@
}

fn table_rule_text(n: usize, color: bool) -> (r: String)
    ensures
        r@ == table_rule(n as nat, color),
{
    " ".to_owned().concat(explain::code_text(color, "\x1b[2m")).concat(text::fill_text('─', n).as_str()).concat(
        explain::code_text(color, "\x1b[0m"),
    ).concat("\n")
}

// ── Peripherals ──────────────────────────────────────────────────────────────

pub open spec fn peripheral_row(p: PeripheralView, color: bool) -> Seq<char> {
    " "@ + cyan(color) + text::pad_right(p.name, 22) + reset(color) + "  0x"@ + text::hex_padded(
        p.base_address as nat,
        8,
    ) + "      "@ + text::pad_left(text::decimal(p.registers.len()), 5, ' ') + "\n"@
}

pub open spec fn peripheral_rows(peripherals: Seq<PeripheralView>, color: bool) -> Seq<char>
    decreases peripherals.len(),
{
    if peripherals.len() == 0 {
        Seq::empty()
    } else {
        peripheral_rows(peripherals.drop_last(), color) + peripheral_row(peripherals.last(), color)
    }
}

/// The listing of the peripherals.
pub open spec fn peripherals_listing(model: ModelView, color: bool) -> Seq<char> {
    "\n "@ + bold(color) + text::pad_right("PERIPHERAL"@, 22) + "  "@ + text::pad_right("BASE"@, 14) + "  REGISTERS"@
        + reset(color) + "\n"@ + table_rule(46, color) + peripheral_rows(by_name(model.peripherals), color) + "\n"@
}

fn peripheral_row_text(p: &PeripheralModel, color: bool) -> (r: String)
    ensures
        r@ == peripheral_row(p@, color),
{
    let count = text::pad_left_text(text::decimal_text(p.registers.len() as u64).as_str(), 5, ' ');
    " ".to_owned().concat(explain::code_text(color, "\x1b[36m")).concat(
        text::pad_right_text(p.name.as_str(), 22).as_str(),
    ).concat(explain::code_text(color, "\x1b[0m")).concat("  0x").concat(
        text::hex_padded_text(p.base_address, 8).as_str(),
    ).concat("      ").concat(count.as_str()).concat("\n")
}

fn peripheral_rows_text(peripherals: &[&PeripheralModel], color: bool) -> (r: String)
    ensures
        r@ == peripheral_rows(text::views(peripherals@), color),
{
    let ghost all = text::views(peripherals@);
    let mut out = String::new();
    let mut i: usize = 0;
    assert(all.take(0).len() == 0);
    while i < peripherals.len()
        invariant
            i <= peripherals@.len(),
            all == text::views(peripherals@),
            out@ == peripheral_rows(all.take(i as int), color),
        decreases peripherals.len() - i,
    {
        assert(all.take(i + 1).drop_last() =~= all.take(i as int));
        assert(all.take(i + 1).last() == peripherals@[i as int]@);
        out.append(peripheral_row_text(peripherals[i], color).as_str());
        i += 1;
    }
    assert(all.take(all.len() as int) =~= all);
    out
}

/// Lists the peripherals by name, with base address and number of registers.
pub fn list_peripherals(model: &Model, color: bool) -> (r: String)
    ensures
        r@ == peripherals_listing(model@, color),
{
    let peripherals = order::sort_stable(references(model.peripherals()));
    "\n ".to_owned().concat(explain::code_text(color, "\x1b[1m")).concat(
        text::pad_right_text("PERIPHERAL", 22).as_str(),
    ).concat("  ").concat(text::pad_right_text("BASE", 14).as_str()).concat("  REGISTERS").concat(
        explain::code_text(color, "\x1b[0m"),
    ).concat("\n").concat(table_rule_text(46, color).as_str()).concat(
        peripheral_rows_text(&peripherals, color).as_str(),
    ).concat("\n")
}

// ── Registers ────────────────────────────────────────────────────────────────

pub open spec fn register_row(r: RegisterView, color: bool) -> Seq<char> {
    " "@ + cyan(color) + text::pad_right(r.name, 34) + reset(color) + "  0x"@ + text::hex_padded(
        r.address_offset as nat,
        6,
    ) + "   "@ + text::pad_left(text::decimal(r.size_bits as nat), 4, ' ') + "   "@ + text::pad_right(
        access_name(r.access),
        10,
    ) + "  "@ + text::decimal(r.fields.len()) + "\n"@
}

pub open spec fn register_rows(registers: Seq<RegisterView>, color: bool) -> Seq<char>
    decreases registers.len(),
{
    if registers.len() == 0 {
        Seq::empty()
    } else {
        register_rows(registers.drop_last(), color) + register_row(registers.last(), color)
    }
}

/// The listing of the registers of a peripheral.
pub open spec fn registers_listing(p: PeripheralView, color: bool) -> Seq<char> {
    "\n "@ + bold(color) + p.name + " registers"@ + reset(color) + "  "@ + dim(color) + "(base 0x"@ + text::hex_padded(
        p.base_address as nat,
        8,
    ) + ")"@ + reset(color) + "\n\n "@ + bold(color) + text::pad_right("REGISTER"@, 34) + "  "@ + text::pad_left(
        "OFFSET"@,
        8,
        ' ',
    ) + "   "@ + text::pad_left("BITS"@, 4, ' ') + "   "@ + text::pad_right("ACCESS"@, 10) + "  FIELDS"@ + reset(color)
        + "\n"@ + table_rule(72, color) + register_rows(by_offset(p.registers), color) + "\n"@
}

/// The names of peripherals.
pub open spec fn names_of(peripherals: Seq<PeripheralView>) -> Seq<Seq<char>> {
    peripherals.map_values(|p: PeripheralView| p.name)
}

/// What is said of a peripheral that the SVD does not have.
pub open spec fn no_peripheral(name: Seq<char>) -> Seq<char> {
    "silicon: no peripheral '"@ + name + "' in SVD\n"@
}

/// The same, with the peripherals that it has.
pub open spec fn unknown_peripheral(model: ModelView, name: Seq<char>) -> Seq<char> {
    no_peripheral(name) + "available: "@ + text::join(names_of(by_name(model.peripherals)), ", "@) + "\n"@
}

fn register_row_text(r: &RegisterModel, color: bool) -> (s: String)
    ensures
        s@ == register_row(r@, color),
{
    let size = text::pad_left_text(text::decimal_text(r.size_bits as u64).as_str(), 4, ' ');
    " ".to_owned().concat(explain::code_text(color, "\x1b[36m")).concat(
        text::pad_right_text(r.name.as_str(), 34).as_str(),
    ).concat(explain::code_text(color, "\x1b[0m")).concat("  0x").concat(
        text::hex_padded_text(r.address_offset as u64, 6).as_str(),
    ).concat("   ").concat(size.as_str()).concat("   ").concat(
        text::pad_right_text(access_text(r.access), 10).as_str(),
    ).concat("  ").concat(text::decimal_text(r.fields.len() as u64).as_str()).concat("\n")
}

fn register_rows_text(registers: &[&RegisterModel], color: bool) -> (r: String)
    ensures
        r@ == register_rows(text::views(registers@), color),
{
    let ghost all = text::views(registers@);
    let mut out = String::new();
    let mut i: usize = 0;
    assert(all.take(0).len() == 0);
    while i < registers.len()
        invariant
            i <= registers@.len(),
            all == text::views(registers@),
            out@ == register_rows(all.take(i as int), color),
        decreases registers.len() - i,
    {
        assert(all.take(i + 1).drop_last() =~= all.take(i as int));
        assert(all.take(i + 1).last() == registers@[i as int]@);
        out.append(register_row_text(registers[i], color).as_str());
        i += 1;
    }
    assert(all.take(all.len() as int) =~= all);
    out
}

fn sorted_names(model: &Model) -> (r: Vec<String>)
    ensures
        text::views(r@) == names_of(by_name(model@.peripherals)),
{
    let peripherals = order::sort_stable(references(model.peripherals()));
    let ghost all = by_name(model@.peripherals);
    let mut out: Vec<String> = Vec::new();
    let mut i: usize = 0;
    while i < peripherals.len()
        invariant
            i <= peripherals@.len(),
            all == text::views(peripherals@),
            text::views(out@) =~= names_of(all).take(i as int),
        decreases peripherals.len() - i,
    {
        assert(all[i as int] == peripherals@[i as int]@);
        out.push(peripherals[i].name.clone());
        i += 1;
    }
    assert(text::views(out@) =~= names_of(all));
    out
}

/// Lists the registers of a peripheral by offset. The name may be in lower case. The
/// error is what to say where the SVD has no such peripheral.
pub fn list_registers(model: &Model, peripheral: &str, color: bool) -> (r: Result<String, String>)
    ensures
        match r {
            Ok(s) => model@.peripheral(text::upper_case(peripheral@)) matches Some(p) && s@ == registers_listing(
                p,
                color,
            ),
            Err(s) => model@.peripheral(text::upper_case(peripheral@)) is None && s@ == unknown_peripheral(
                model@,
                text::upper_case(peripheral@),
            ),
        },
{
    let name = text::upper_case_text(peripheral);
    match model.peripheral(name.as_str()) {
        None => Err(
            no_peripheral_text(name.as_str()).concat("available: ").concat(
                text::join_text(&sorted_names(model), ", ").as_str(),
            ).concat("\n"),
        ),
        Some(p) => {
            let registers = order::sort_stable(references(p.registers.as_slice()));
            let bold = explain::code_text(color, "\x1b[1m");
            let dim = explain::code_text(color, "\x1b[2m");
            let reset = explain::code_text(color, "\x1b[0m");
            Ok(
                "\n ".to_owned().concat(bold).concat(p.name.as_str()).concat(" registers").concat(reset).concat(
                    "  ",
                ).concat(dim).concat("(base 0x").concat(text::hex_padded_text(p.base_address, 8).as_str()).concat(
                    ")",
                ).concat(reset).concat("\n\n ").concat(bold).concat(
                    text::pad_right_text("REGISTER", 34).as_str(),
                ).concat("  ").concat(text::pad_left_text("OFFSET", 8, ' ').as_str()).concat("   ").concat(
                    text::pad_left_text("BITS", 4, ' ').as_str(),
                ).concat("   ").concat(text::pad_right_text("ACCESS", 10).as_str()).concat("  FIELDS").concat(
                    reset,
                ).concat("\n").concat(table_rule_text(72, color).as_str()).concat(
                    register_rows_text(&registers, color).as_str(),
                ).concat("\n"),
            )
        },
    }
}

fn no_peripheral_text(name: &str) -> (r: String)
    ensures
        r@ == no_peripheral(name@),
{
    "silicon: no peripheral '".to_owned().concat(name).concat("' in SVD\n")
}

// ── Fields ───────────────────────────────────────────────────────────────────

pub open spec fn field_row(f: FieldView, color: bool) -> Seq<char> {
    " "@ + cyan(color) + text::pad_right(f.name, 20) + reset(color) + "  "@ + text::pad_left(bit_range(f), 12, ' ')
        + "   "@ + text::pad_right(short_access_name(f.access), 10) + "  "@ + allowed_cell(f.allowed_values, color) + "\n"@
}

pub open spec fn field_rows(fields: Seq<FieldView>, color: bool) -> Seq<char>
    decreases fields.len(),
{
    if fields.len() == 0 {
        Seq::empty()
    } else {
        field_rows(fields.drop_last(), color) + field_row(fields.last(), color)
    }
}

/// The listing of the fields of a register.
pub open spec fn fields_listing(p: PeripheralView, r: RegisterView, color: bool) -> Seq<char> {
    let head = "\n "@ + bold(color) + p.name + "."@ + r.name + reset(color) + "  "@ + dim(color) + "(offset 0x"@
        + text::hex_padded(r.address_offset as nat, 3) + ", "@ + text::decimal(r.size_bits as nat) + "-bit, "@
        + access_name(r.access) + ")"@ + reset(color) + "\n\n"@;
    if r.fields.len() == 0 {
        head + "  "@ + dim(color) + "(no fields defined in SVD)"@ + reset(color) + "\n\n"@
    } else {
        head + " "@ + bold(color) + text::pad_right("FIELD"@, 20) + "  "@ + text::pad_left("BITS"@, 12, ' ') + "   "@
            + text::pad_right("ACCESS"@, 10) + "  ALLOWED VALUES"@ + reset(color) + "\n"@ + table_rule(72, color)
            + field_rows(by_bit(r.fields), color) + "\n"@
    }
}

/// What is said of a register that the peripheral does not have.
pub open spec fn no_register(peripheral: Seq<char>, register: Seq<char>) -> Seq<char> {
    "silicon: no register '"@ + register + "' in peripheral '"@ + peripheral + "'\n"@
}

fn field_row_text(f: &FieldModel, color: bool) -> (r: String)
    ensures
        r@ == field_row(f@, color),
{
    " ".to_owned().concat(explain::code_text(color, "\x1b[36m")).concat(
        text::pad_right_text(f.name.as_str(), 20).as_str(),
    ).concat(explain::code_text(color, "\x1b[0m")).concat("  ").concat(
        text::pad_left_text(bit_range_text(f).as_str(), 12, ' ').as_str(),
    ).concat("   ").concat(text::pad_right_text(short_access_text(f.access), 10).as_str()).concat("  ").concat(
        allowed_cell_text(&f.allowed_values, color).as_str(),
    ).concat("\n")
}

fn field_rows_text(fields: &[&FieldModel], color: bool) -> (r: String)
    ensures
        r@ == field_rows(text::views(fields@), color),
{
    let ghost all = text::views(fields@);
    let mut out = String::new();
    let mut i: usize = 0;
    assert(all.take(0).len() == 0);
    while i < fields.len()
        invariant
            i <= fields@.len(),
            all == text::views(fields@),
            out@ == field_rows(all.take(i as int), color),
        decreases fields.len() - i,
    {
        assert(all.take(i + 1).drop_last() =~= all.take(i as int));
        assert(all.take(i + 1).last() == fields@[i as int]@);
        out.append(field_row_text(fields[i], color).as_str());
        i += 1;
    }
    assert(all.take(all.len() as int) =~= all);
    out
}

fn fields_listing_text(p: &PeripheralModel, r: &RegisterModel, color: bool) -> (s: String)
    ensures
        s@ == fields_listing(p@, r@, color),
{
    let bold = explain::code_text(color, "\x1b[1m");
    let dim = explain::code_text(color, "\x1b[2m");
    let reset = explain::code_text(color, "\x1b[0m");
    let head = "\n ".to_owned().concat(bold).concat(p.name.as_str()).concat(".").concat(r.name.as_str()).concat(
        reset,
    ).concat("  ").concat(dim).concat("(offset 0x").concat(
        text::hex_padded_text(r.address_offset as u64, 3).as_str(),
    ).concat(", ").concat(text::decimal_text(r.size_bits as u64).as_str()).concat("-bit, ").concat(
        access_text(r.access),
    ).concat(")").concat(reset).concat("\n\n");
    if r.fields.len() == 0 {
        head.concat("  ").concat(dim).concat("(no fields defined in SVD)").concat(reset).concat("\n\n")
    } else {
        let fields = order::sort_stable(references(r.fields.as_slice()));
        head.concat(" ").concat(bold).concat(text::pad_right_text("FIELD", 20).as_str()).concat("  ").concat(
            text::pad_left_text("BITS", 12, ' ').as_str(),
        ).concat("   ").concat(text::pad_right_text("ACCESS", 10).as_str()).concat("  ALLOWED VALUES").concat(
            reset,
        ).concat("\n").concat(table_rule_text(72, color).as_str()).concat(
            field_rows_text(&fields, color).as_str(),
        ).concat("\n")
    }
}

/// Lists the fields of a register from the lowest bit on. The names may be in lower
/// case. The error is what to say where the SVD has no such peripheral or register.
pub fn list_fields(model: &Model, peripheral: &str, register: &str, color: bool) -> (r: Result<String, String>)
    ensures
        ({
            let p_name = text::upper_case(peripheral@);
            let r_name = text::upper_case(register@);
            match model@.peripheral(p_name) {
                None => r matches Err(s) && s@ == no_peripheral(p_name),
                Some(p) => match svd_model::find_register(p.registers, r_name) {
                    None => r matches Err(s) && s@ == no_register(p_name, r_name),
                    Some(reg) => r matches Ok(s) && s@ == fields_listing(p, reg, color),
                },
            }
        }),
{
    let p_name = text::upper_case_text(peripheral);
    let r_name = text::upper_case_text(register);
    match model.peripheral(p_name.as_str()) {
        None => Err(no_peripheral_text(p_name.as_str())),
        Some(p) => match p.register(r_name.as_str()) {
            None => Err(
                "silicon: no register '".to_owned().concat(r_name.as_str()).concat("' in peripheral '").concat(
                    p_name.as_str(),
                ).concat("'\n"),
            ),
            Some(reg) => Ok(fields_listing_text(p, reg, color)),
        },
    }
}

// ── What holds of every listing ──────────────────────────────────────────────

/// A listing has the rows of what the SVD defines, each once: peripherals by name,
/// registers by offset, fields by their lowest bit.
pub proof fn listings_are_ordered(
    peripherals: Seq<PeripheralView>,
    registers: Seq<RegisterView>,
    fields: Seq<FieldView>,
)
    ensures
        by_name(peripherals).to_multiset() == peripherals.to_multiset(),
        forall|i: int, j: int|
            0 <= i < j < by_name(peripherals).len() ==> !path_order::text_before(
                (#[trigger] by_name(peripherals)[j]).name,
                (#[trigger] by_name(peripherals)[i]).name,
            ),
        by_offset(registers).to_multiset() == registers.to_multiset(),
        forall|i: int, j: int|
            0 <= i < j < by_offset(registers).len() ==> (#[trigger] by_offset(registers)[i]).address_offset <= (
            #[trigger] by_offset(registers)[j]).address_offset,
        by_bit(fields).to_multiset() == fields.to_multiset(),
        forall|i: int, j: int|
            0 <= i < j < by_bit(fields).len() ==> (#[trigger] by_bit(fields)[i]).bit_offset <= (#[trigger] by_bit(
                fields,
            )[j]).bit_offset,
{
    order::sorting_orders::<&PeripheralModel>(peripherals);
    order::sorting_orders::<&RegisterModel>(registers);
    order::sorting_orders::<&FieldModel>(fields);
}

} // verus!
