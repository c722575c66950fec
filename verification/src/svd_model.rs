//! The queryable model of a device: peripheral → register → field → bit width,
//! access and allowed values.
//!
//! The model only answers what the SVD says. Whether firmware is correct is
//! decided by the checker.

use vstd::prelude::*;

use crate::bits;
use crate::svd::{
    AddressBlock, Access, SvdDevice, SvdEnumeratedValue, SvdEnumeratedValueView,
    SvdEnumeratedValues, SvdEnumeratedValuesView, SvdField, SvdFieldView, SvdPeripheral,
    SvdPeripheralView, SvdRegister, SvdRegisterCluster, SvdRegisterClusterView, SvdRegisterView,
    SvdUsage,
};
use crate::text;

verus! {

broadcast use crate::text::group_views;

/// A parsed device: every peripheral, register and field the SVD describes.
#[derive(Debug, Clone)]
pub struct Model {
    peripherals: Vec<PeripheralModel>,
}

#[derive(Debug, Clone)]
pub struct PeripheralModel {
    pub name: String,
    pub base_address: u64,
    pub address_blocks: Vec<AddressBlock>,
    pub registers: Vec<RegisterModel>,
}

#[derive(Debug, Clone)]
pub struct RegisterModel {
    pub name: String,
    pub address_offset: u32,
    pub size_bits: u32,
    pub access: Access,
    pub reset_value: Option<u64>,
    pub fields: Vec<FieldModel>,
}

#[derive(Debug, Clone)]
pub struct FieldModel {
    pub name: String,
    pub bit_offset: u32,
    pub bit_width: u32,
    pub access: Access,
    pub reset_value: Option<u64>,
    /// `None` means that the SVD has no enumeration for this field: which values
    /// are allowed is unverifiable, not "anything goes".
    pub allowed_values: Option<Vec<EnumValue>>,
}

#[derive(Debug, PartialEq, Eq)]
pub struct EnumValue {
    pub name: String,
    pub value: u64,
}

/// Where an absolute address lies.
#[derive(Debug)]
pub enum AddressLookup<'m> {
    /// The start address of a register.
    Register(&'m PeripheralModel, &'m RegisterModel),
    /// Inside a peripheral's address block, at no register's start address.
    WithinPeripheral(&'m PeripheralModel),
    /// In no peripheral's address block.
    Unmapped,
}

// ── Views ────────────────────────────────────────────────────────────────────

pub struct EnumValueView {
    pub name: Seq<char>,
    pub value: u64,
}

pub struct FieldView {
    pub name: Seq<char>,
    pub bit_offset: u32,
    pub bit_width: u32,
    pub access: Access,
    pub reset_value: Option<u64>,
    pub allowed_values: Option<Seq<EnumValueView>>,
}

pub struct RegisterView {
    pub name: Seq<char>,
    pub address_offset: u32,
    pub size_bits: u32,
    pub access: Access,
    pub reset_value: Option<u64>,
    pub fields: Seq<FieldView>,
}

pub struct PeripheralView {
    pub name: Seq<char>,
    pub base_address: u64,
    pub address_blocks: Seq<AddressBlock>,
    pub registers: Seq<RegisterView>,
}

pub struct ModelView {
    pub peripherals: Seq<PeripheralView>,
}

pub enum AddressLookupView {
    Register(PeripheralView, RegisterView),
    WithinPeripheral(PeripheralView),
    Unmapped,
}

impl View for EnumValue {
    type V = EnumValueView;

    open spec fn view(&self) -> EnumValueView {
        EnumValueView { name: self.name@, value: self.value }
    }
}

impl View for FieldModel {
    type V = FieldView;

    open spec fn view(&self) -> FieldView {
        FieldView {
            name: self.name@,
            bit_offset: self.bit_offset,
            bit_width: self.bit_width,
            access: self.access,
            reset_value: self.reset_value,
            allowed_values: match self.allowed_values {
                Some(values) => Some(text::views(values@)),
                None => None,
            },
        }
    }
}

impl View for RegisterModel {
    type V = RegisterView;

    open spec fn view(&self) -> RegisterView {
        RegisterView {
            name: self.name@,
            address_offset: self.address_offset,
            size_bits: self.size_bits,
            access: self.access,
            reset_value: self.reset_value,
            fields: text::views(self.fields@),
        }
    }
}

impl View for PeripheralModel {
    type V = PeripheralView;

    open spec fn view(&self) -> PeripheralView {
        PeripheralView {
            name: self.name@,
            base_address: self.base_address,
            address_blocks: self.address_blocks@,
            registers: text::views(self.registers@),
        }
    }
}

impl View for Model {
    type V = ModelView;

    closed spec fn view(&self) -> ModelView {
        ModelView { peripherals: text::views(self.peripherals@) }
    }
}

impl<'m> View for AddressLookup<'m> {
    type V = AddressLookupView;

    open spec fn view(&self) -> AddressLookupView {
        match self {
            AddressLookup::Register(p, r) => AddressLookupView::Register(p@, r@),
            AddressLookup::WithinPeripheral(p) => AddressLookupView::WithinPeripheral(p@),
            AddressLookup::Unmapped => AddressLookupView::Unmapped,
        }
    }
}

// ── Lookups ──────────────────────────────────────────────────────────────────

/// The first field of that name.
pub open spec fn find_field(fields: Seq<FieldView>, name: Seq<char>) -> Option<FieldView>
    decreases fields.len(),
{
    if fields.len() == 0 {
        None
    } else if fields[0].name == name {
        Some(fields[0])
    } else {
        find_field(fields.drop_first(), name)
    }
}

/// The first register of that name.
pub open spec fn find_register(registers: Seq<RegisterView>, name: Seq<char>) -> Option<RegisterView>
    decreases registers.len(),
{
    if registers.len() == 0 {
        None
    } else if registers[0].name == name {
        Some(registers[0])
    } else {
        find_register(registers.drop_first(), name)
    }
}

/// The last peripheral of that name: a later description replaces an earlier one.
pub open spec fn find_peripheral(peripherals: Seq<PeripheralView>, name: Seq<char>) -> Option<PeripheralView>
    decreases peripherals.len(),
{
    if peripherals.len() == 0 {
        None
    } else if peripherals.last().name == name {
        Some(peripherals.last())
    } else {
        find_peripheral(peripherals.drop_last(), name)
    }
}

/// The first register that starts at `address`, `base` being its peripheral's base address.
pub open spec fn find_register_at(registers: Seq<RegisterView>, base: u64, address: u64) -> Option<RegisterView>
    decreases registers.len(),
{
    if registers.len() == 0 {
        None
    } else if base + registers[0].address_offset == address {
        Some(registers[0])
    } else {
        find_register_at(registers.drop_first(), base, address)
    }
}

impl AddressBlock {
    /// Whether `address` lies in this block of a peripheral based at `base`.
    pub open spec fn covers(self, base: u64, address: u64) -> bool {
        base + self.offset <= address < base + self.offset + self.size
    }
}

impl PeripheralView {
    /// Whether one of the address blocks holds `address`.
    pub open spec fn covers(self, address: u64) -> bool {
        exists|i: int|
            0 <= i < self.address_blocks.len() && (#[trigger] self.address_blocks[i]).covers(
                self.base_address,
                address,
            )
    }
}

/// The first register, over the peripherals in order, that starts at `address`.
pub open spec fn find_at(peripherals: Seq<PeripheralView>, address: u64) -> Option<(PeripheralView, RegisterView)>
    decreases peripherals.len(),
{
    if peripherals.len() == 0 {
        None
    } else {
        match find_register_at(peripherals[0].registers, peripherals[0].base_address, address) {
            Some(r) => Some((peripherals[0], r)),
            None => find_at(peripherals.drop_first(), address),
        }
    }
}

/// The first peripheral with an address block that holds `address`.
pub open spec fn find_covering(peripherals: Seq<PeripheralView>, address: u64) -> Option<PeripheralView>
    decreases peripherals.len(),
{
    if peripherals.len() == 0 {
        None
    } else if peripherals[0].covers(address) {
        Some(peripherals[0])
    } else {
        find_covering(peripherals.drop_first(), address)
    }
}

impl ModelView {
    pub open spec fn peripheral(self, name: Seq<char>) -> Option<PeripheralView> {
        find_peripheral(self.peripherals, name)
    }

    pub open spec fn register(self, peripheral: Seq<char>, register: Seq<char>) -> Option<RegisterView> {
        match self.peripheral(peripheral) {
            Some(p) => find_register(p.registers, register),
            None => None,
        }
    }

    pub open spec fn field(self, peripheral: Seq<char>, register: Seq<char>, field: Seq<char>) -> Option<FieldView> {
        match self.register(peripheral, register) {
            Some(r) => find_field(r.fields, field),
            None => None,
        }
    }

    pub open spec fn resolve_address(self, address: u64) -> AddressLookupView {
        match find_at(self.peripherals, address) {
            Some((p, r)) => AddressLookupView::Register(p, r),
            None => match find_covering(self.peripherals, address) {
                Some(p) => AddressLookupView::WithinPeripheral(p),
                None => AddressLookupView::Unmapped,
            },
        }
    }
}

impl PeripheralModel {
    /// The register of that name, if the SVD has one.
    pub fn register(&self, name: &str) -> (r: Option<&RegisterModel>)
        ensures
            match r {
                Some(reg) => find_register(self@.registers, name@) == Some(reg@),
                None => find_register(self@.registers, name@) is None,
            },
    {
        let ghost all = self@.registers;
        let mut i: usize = 0;
        assert(all.skip(0) =~= all);
        while i < self.registers.len()
            invariant
                all == self@.registers,
                all.len() == self.registers@.len(),
                i <= self.registers@.len(),
                find_register(all, name@) == find_register(all.skip(i as int), name@),
            decreases self.registers.len() - i,
        {
            assert(all.skip(i as int)[0] == self.registers@[i as int]@);
            if text::same_text(self.registers[i].name.as_str(), name) {
                return Some(&self.registers[i]);
            }
            assert(all.skip(i as int).drop_first() =~= all.skip(i + 1));
            i += 1;
        }
        None
    }

    /// The register that starts at the absolute `address`, if there is one.
    fn register_at(&self, address: u64) -> (r: Option<&RegisterModel>)
        ensures
            match r {
                Some(reg) => find_register_at(self@.registers, self@.base_address, address) == Some(reg@),
                None => find_register_at(self@.registers, self@.base_address, address) is None,
            },
    {
        let ghost all = self@.registers;
        let mut i: usize = 0;
        assert(all.skip(0) =~= all);
        while i < self.registers.len()
            invariant
                all == self@.registers,
                all.len() == self.registers@.len(),
                i <= self.registers@.len(),
                find_register_at(all, self@.base_address, address) == find_register_at(
                    all.skip(i as int),
                    self@.base_address,
                    address,
                ),
            decreases self.registers.len() - i,
        {
            assert(all.skip(i as int)[0] == self.registers@[i as int]@);
            if address >= self.base_address && address - self.base_address == self.registers[i].address_offset as u64 {
                return Some(&self.registers[i]);
            }
            assert(all.skip(i as int).drop_first() =~= all.skip(i + 1));
            i += 1;
        }
        None
    }

    /// Whether one of the address blocks holds the absolute `address`.
    fn covers(&self, address: u64) -> (r: bool)
        ensures
            r == self@.covers(address),
    {
        let mut i: usize = 0;
        while i < self.address_blocks.len()
            invariant
                i <= self.address_blocks@.len(),
                forall|j: int|
                    0 <= j < i ==> !(#[trigger] self.address_blocks@[j]).covers(self.base_address, address),
            decreases self.address_blocks.len() - i,
        {
            let block: AddressBlock = self.address_blocks[i];
            if address >= self.base_address {
                let relative: u64 = address - self.base_address;
                if block.offset as u64 <= relative && relative - (block.offset as u64) < block.size as u64 {
                    assert(self@.address_blocks[i as int].covers(self@.base_address, address));
                    return true;
                }
            }
            i += 1;
        }
        false
    }
}

impl RegisterModel {
    /// The field of that name, if the SVD has one.
    pub fn field(&self, name: &str) -> (r: Option<&FieldModel>)
        ensures
            match r {
                Some(f) => find_field(self@.fields, name@) == Some(f@),
                None => find_field(self@.fields, name@) is None,
            },
    {
        let ghost all = self@.fields;
        let mut i: usize = 0;
        assert(all.skip(0) =~= all);
        while i < self.fields.len()
            invariant
                all == self@.fields,
                all.len() == self.fields@.len(),
                i <= self.fields@.len(),
                find_field(all, name@) == find_field(all.skip(i as int), name@),
            decreases self.fields.len() - i,
        {
            assert(all.skip(i as int)[0] == self.fields@[i as int]@);
            if text::same_text(self.fields[i].name.as_str(), name) {
                return Some(&self.fields[i]);
            }
            assert(all.skip(i as int).drop_first() =~= all.skip(i + 1));
            i += 1;
        }
        None
    }
}

impl Model {
    /// The peripheral of that name.
    pub fn peripheral(&self, name: &str) -> (r: Option<&PeripheralModel>)
        ensures
            match r {
                Some(p) => self@.peripheral(name@) == Some(p@),
                None => self@.peripheral(name@) is None,
            },
    {
        let ghost all = self@.peripherals;
        let mut i: usize = self.peripherals.len();
        assert(all.take(all.len() as int) =~= all);
        while i > 0
            invariant
                all == self@.peripherals,
                all.len() == self.peripherals@.len(),
                i <= self.peripherals@.len(),
                find_peripheral(all, name@) == find_peripheral(all.take(i as int), name@),
            decreases i,
        {
            assert(all.take(i as int).last() == self.peripherals@[i - 1]@);
            if text::same_text(self.peripherals[i - 1].name.as_str(), name) {
                return Some(&self.peripherals[i - 1]);
            }
            assert(all.take(i as int).drop_last() =~= all.take(i - 1));
            i -= 1;
        }
        None
    }

    /// The register of that name in the peripheral of that name.
    pub fn register(&self, peripheral: &str, register: &str) -> (r: Option<&RegisterModel>)
        ensures
            match r {
                Some(reg) => self@.register(peripheral@, register@) == Some(reg@),
                None => self@.register(peripheral@, register@) is None,
            },
    {
        match self.peripheral(peripheral) {
            Some(p) => p.register(register),
            None => None,
        }
    }

    /// The field of that name in the named register of the named peripheral.
    pub fn field(&self, peripheral: &str, register: &str, field: &str) -> (r: Option<&FieldModel>)
        ensures
            match r {
                Some(f) => self@.field(peripheral@, register@, field@) == Some(f@),
                None => self@.field(peripheral@, register@, field@) is None,
            },
    {
        match self.register(peripheral, register) {
            Some(r) => r.field(field),
            None => None,
        }
    }

    /// Every peripheral, in document order.
    pub fn peripherals(&self) -> (r: &[PeripheralModel])
        ensures
            text::views(r@) == self@.peripherals,
    {
        self.peripherals.as_slice()
    }

    /// What the SVD has at an absolute address.
    pub fn resolve_address(&self, address: u64) -> (r: AddressLookup<'_>)
        ensures
            r@ == self@.resolve_address(address),
    {
        let ghost all = self@.peripherals;
        let mut i: usize = 0;
        assert(all.skip(0) =~= all);
        while i < self.peripherals.len()
            invariant
                all == self@.peripherals,
                all.len() == self.peripherals@.len(),
                i <= self.peripherals@.len(),
                find_at(all, address) == find_at(all.skip(i as int), address),
            decreases self.peripherals.len() - i,
        {
            assert(all.skip(i as int)[0] == self.peripherals@[i as int]@);
            if let Some(r) = self.peripherals[i].register_at(address) {
                return AddressLookup::Register(&self.peripherals[i], r);
            }
            assert(all.skip(i as int).drop_first() =~= all.skip(i + 1));
            i += 1;
        }
        let mut k: usize = 0;
        assert(all.skip(0) =~= all);
        while k < self.peripherals.len()
            invariant
                all == self@.peripherals,
                all.len() == self.peripherals@.len(),
                k <= self.peripherals@.len(),
                find_at(all, address) is None,
                find_covering(all, address) == find_covering(all.skip(k as int), address),
            decreases self.peripherals.len() - k,
        {
            assert(all.skip(k as int)[0] == self.peripherals@[k as int]@);
            if self.peripherals[k].covers(address) {
                return AddressLookup::WithinPeripheral(&self.peripherals[k]);
            }
            assert(all.skip(k as int).drop_first() =~= all.skip(k + 1));
            k += 1;
        }
        AddressLookup::Unmapped
    }
}

// ── Building the model ───────────────────────────────────────────────────────

impl Clone for EnumValue {
    fn clone(&self) -> (r: EnumValue)
        ensures
            r@ == self@,
    {
        EnumValue { name: self.name.clone(), value: self.value }
    }
}

/// A copy of a list of enumerated values.
pub fn clone_enum_values(values: &[EnumValue]) -> (r: Vec<EnumValue>)
    ensures
        text::views(r@) == text::views(values@),
{
    let mut out: Vec<EnumValue> = Vec::new();
    let mut i: usize = 0;
    while i < values.len()
        invariant
            i <= values@.len(),
            text::views(out@) =~= text::views(values@).take(i as int),
        decreases values.len() - i,
    {
        out.push(values[i].clone());
        i += 1;
    }
    assert(text::views(values@).take(values@.len() as int) =~= text::views(values@));
    out
}

/// The first set of enumerated values that speaks of writes.
pub open spec fn write_set(sets: Seq<SvdEnumeratedValuesView>) -> Option<SvdEnumeratedValuesView>
    decreases sets.len(),
{
    if sets.len() == 0 {
        None
    } else if sets[0].usage != Some(SvdUsage::Read) {
        Some(sets[0])
    } else {
        write_set(sets.drop_first())
    }
}

/// The entries that name a value, in order.
pub open spec fn listed_values(values: Seq<SvdEnumeratedValueView>) -> Seq<EnumValueView>
    decreases values.len(),
{
    if values.len() == 0 {
        Seq::empty()
    } else {
        let rest = listed_values(values.drop_last());
        match values.last().value {
            Some(value) => rest.push(EnumValueView { name: values.last().name, value }),
            None => rest,
        }
    }
}

/// The values that may be written to a field, if the SVD enumerates them.
pub open spec fn write_enum(sets: Seq<SvdEnumeratedValuesView>) -> Option<Seq<EnumValueView>> {
    match write_set(sets) {
        Some(set) => if listed_values(set.values).len() == 0 {
            None
        } else {
            Some(listed_values(set.values))
        },
        None => None,
    }
}

/// A field takes its access from the register where it has none of its own, and
/// its reset value from the bits that it occupies.
pub open spec fn field_model(f: SvdFieldView, register_access: Access, register_reset_value: Option<u64>) -> FieldView {
    FieldView {
        name: f.name,
        bit_offset: f.bit_offset,
        bit_width: f.bit_width,
        access: match f.access {
            Some(access) => access,
            None => register_access,
        },
        reset_value: match register_reset_value {
            Some(value) => Some(bits::range_value(value, f.bit_offset, f.bit_width)),
            None => None,
        },
        allowed_values: write_enum(f.enumerated_values),
    }
}

/// The sum of two address offsets, in the thirty-two bits that an offset has.
pub open spec fn offset_sum(a: u32, b: u32) -> u32 {
    ((a + b) % 0x1_0000_0000) as u32
}

/// A register without an access of its own is readable and writable, one without
/// a size is thirty-two bits wide.
pub open spec fn register_model(r: SvdRegisterView, base_offset: u32) -> RegisterView {
    let access = match r.access {
        Some(access) => access,
        None => Access::ReadWrite,
    };
    RegisterView {
        name: r.name,
        address_offset: offset_sum(base_offset, r.address_offset),
        size_bits: match r.size {
            Some(size) => size,
            None => 32,
        },
        access,
        reset_value: r.reset_value,
        fields: match r.fields {
            Some(fields) => fields.map_values(|f: SvdFieldView| field_model(f, access, r.reset_value)),
            None => Seq::empty(),
        },
    }
}

/// The registers of a register or cluster in document order, offsets summed up
/// on the way down.
pub open spec fn cluster_registers(rc: SvdRegisterClusterView, base_offset: u32) -> Seq<RegisterView>
    decreases rc,
{
    match rc {
        SvdRegisterClusterView::Register(r) => seq![register_model(r, base_offset)],
        SvdRegisterClusterView::Cluster(offset, children) => all_registers(
            children,
            offset_sum(base_offset, offset),
        ),
    }
}

/// The registers of several registers or clusters, one after the other.
pub open spec fn all_registers(children: Seq<SvdRegisterClusterView>, base_offset: u32) -> Seq<RegisterView>
    decreases children,
{
    if children.len() == 0 {
        Seq::empty()
    } else {
        all_registers(children.drop_last(), base_offset) + cluster_registers(children.last(), base_offset)
    }
}

pub open spec fn peripheral_model(p: SvdPeripheralView) -> PeripheralView {
    PeripheralView {
        name: p.name,
        base_address: p.base_address,
        address_blocks: p.address_blocks,
        registers: match p.registers {
            Some(children) => all_registers(children, 0),
            None => Seq::empty(),
        },
    }
}

pub open spec fn model_of(device: Seq<SvdPeripheralView>) -> ModelView {
    ModelView { peripherals: device.map_values(|p: SvdPeripheralView| peripheral_model(p)) }
}

impl Model {
    /// The model of a device.
    pub fn from_device(device: &SvdDevice) -> (r: Model)
        ensures
            r@ == model_of(device@),
    {
        let ghost all = model_of(device@).peripherals;
        let mut peripherals: Vec<PeripheralModel> = Vec::new();
        let mut i: usize = 0;
        while i < device.peripherals.len()
            invariant
                i <= device.peripherals@.len(),
                all == model_of(device@).peripherals,
                text::views(peripherals@) =~= all.take(i as int),
            decreases device.peripherals.len() - i,
        {
            peripherals.push(PeripheralModel::from_svd(&device.peripherals[i]));
            i += 1;
        }
        assert(all.take(all.len() as int) =~= all);
        Model { peripherals }
    }
}

impl PeripheralModel {
    fn from_svd(p: &SvdPeripheral) -> (r: PeripheralModel)
        ensures
            r@ == peripheral_model(p@),
    {
        let mut registers: Vec<RegisterModel> = Vec::new();
        if let Some(children) = &p.registers {
            collect_all(children, 0, &mut registers);
        }
        let mut address_blocks: Vec<AddressBlock> = Vec::new();
        let mut i: usize = 0;
        while i < p.address_blocks.len()
            invariant
                i <= p.address_blocks@.len(),
                address_blocks@ =~= p.address_blocks@.take(i as int),
            decreases p.address_blocks.len() - i,
        {
            address_blocks.push(p.address_blocks[i]);
            i += 1;
        }
        assert(p.address_blocks@.take(i as int) =~= p.address_blocks@);
        let r = PeripheralModel { name: p.name.clone(), base_address: p.base_address, address_blocks, registers };
        assert(r@.registers =~= peripheral_model(p@).registers);
        r
    }
}

fn collect_all(children: &Vec<SvdRegisterCluster>, base_offset: u32, out: &mut Vec<RegisterModel>)
    ensures
        text::views(final(out)@) == text::views(old(out)@) + all_registers(text::views(children@), base_offset),
    decreases children,
{
    let ghost all = text::views(children@);
    let mut i: usize = 0;
    assert(text::views(out@) =~= text::views(old(out)@) + all_registers(all.take(0), base_offset));
    while i < children.len()
        invariant
            i <= children@.len(),
            all == text::views(children@),
            text::views(out@) == text::views(old(out)@) + all_registers(all.take(i as int), base_offset),
        decreases children.len() - i,
    {
        collect_registers(&children[i], base_offset, out);
        i += 1;
        assert(all.take(i as int).drop_last() =~= all.take(i - 1));
        assert(all.take(i as int).last() == children@[i - 1]@);
        assert(text::views(out@) =~= text::views(old(out)@) + all_registers(all.take(i as int), base_offset));
    }
    assert(all.take(all.len() as int) =~= all);
}

fn collect_registers(rc: &SvdRegisterCluster, base_offset: u32, out: &mut Vec<RegisterModel>)
    ensures
        text::views(final(out)@) == text::views(old(out)@) + cluster_registers(rc@, base_offset),
    decreases rc,
{
    match rc {
        SvdRegisterCluster::Register(r) => {
            let register = RegisterModel::from_svd(r, base_offset);
            out.push(register);
            assert(text::views(out@) =~= text::views(old(out)@) + cluster_registers(rc@, base_offset));
        },
        SvdRegisterCluster::Cluster(c) => {
            broadcast use crate::svd::lemma_cluster_view;
            collect_all(&c.children, base_offset.wrapping_add(c.address_offset), out);
        },
    }
}

impl RegisterModel {
    fn from_svd(r: &SvdRegister, base_offset: u32) -> (m: RegisterModel)
        ensures
            m@ == register_model(r@, base_offset),
    {
        let access = match r.access {
            Some(access) => access,
            None => Access::ReadWrite,
        };
        let mut fields: Vec<FieldModel> = Vec::new();
        let ghost all = register_model(r@, base_offset).fields;
        if let Some(parsed) = &r.fields {
            let mut i: usize = 0;
            while i < parsed.len()
                invariant
                    r.fields == Some(*parsed),
                    i <= parsed@.len(),
                    access == register_model(r@, base_offset).access,
                    all == register_model(r@, base_offset).fields,
                    text::views(fields@) =~= all.take(i as int),
                decreases parsed.len() - i,
            {
                fields.push(FieldModel::from_svd(&parsed[i], access, r.reset_value));
                i += 1;
            }
            assert(all.take(all.len() as int) =~= all);
        }
        assert(text::views(fields@) =~= all);
        RegisterModel {
            name: r.name.clone(),
            address_offset: base_offset.wrapping_add(r.address_offset),
            size_bits: match r.size {
                Some(size) => size,
                None => 32,
            },
            access,
            reset_value: r.reset_value,
            fields,
        }
    }
}

impl FieldModel {
    fn from_svd(f: &SvdField, register_access: Access, register_reset_value: Option<u64>) -> (m: FieldModel)
        ensures
            m@ == field_model(f@, register_access, register_reset_value),
    {
        let access = match f.access {
            Some(access) => access,
            None => register_access,
        };
        let reset_value = match register_reset_value {
            Some(value) => Some(bits::range_value_of(value, f.bit_offset, f.bit_width)),
            None => None,
        };
        FieldModel {
            name: f.name.clone(),
            bit_offset: f.bit_offset,
            bit_width: f.bit_width,
            access,
            reset_value,
            allowed_values: write_enum_values(f),
        }
    }
}

/// The enumeration that applies to a write of this field, if the SVD defines one.
/// A field may carry separate enumerations for reads and for writes; one for
/// reads says nothing about which values may be written.
fn write_enum_values(f: &SvdField) -> (r: Option<Vec<EnumValue>>)
    ensures
        match r {
            Some(values) => write_enum(f@.enumerated_values) == Some(text::views(values@)),
            None => write_enum(f@.enumerated_values) is None,
        },
{
    let ghost all = f@.enumerated_values;
    let mut i: usize = 0;
    assert(all.skip(0) =~= all);
    while i < f.enumerated_values.len()
        invariant
            all == f@.enumerated_values,
            all.len() == f.enumerated_values@.len(),
            i <= f.enumerated_values@.len(),
            write_set(all) == write_set(all.skip(i as int)),
        decreases f.enumerated_values.len() - i,
    {
        assert(all.skip(i as int)[0] == f.enumerated_values@[i as int]@);
        let for_reads: bool = match f.enumerated_values[i].usage {
            Some(SvdUsage::Read) => true,
            _ => false,
        };
        if !for_reads {
            let values = collect_values(&f.enumerated_values[i].values);
            if values.len() == 0 {
                return None;
            }
            return Some(values);
        }
        assert(all.skip(i as int).drop_first() =~= all.skip(i + 1));
        i += 1;
    }
    None
}

fn collect_values(values: &[SvdEnumeratedValue]) -> (r: Vec<EnumValue>)
    ensures
        text::views(r@) == listed_values(text::views(values@)),
{
    let ghost all = text::views(values@);
    let mut out: Vec<EnumValue> = Vec::new();
    let mut i: usize = 0;
    assert(text::views(out@) =~= listed_values(all.take(0)));
    while i < values.len()
        invariant
            all == text::views(values@),
            i <= values@.len(),
            text::views(out@) == listed_values(all.take(i as int)),
        decreases values.len() - i,
    {
        assert(all.take(i + 1).drop_last() =~= all.take(i as int));
        assert(all.take(i + 1).last() == values@[i as int]@);
        if let Some(value) = values[i].value {
            out.push(EnumValue { name: values[i].name.clone(), value });
        }
        i += 1;
    }
    assert(all.take(all.len() as int) =~= all);
    out
}

// ── What holds of every model ────────────────────────────────────────────────

/// An enumeration that is for reads only says nothing about which values may be written.
pub proof fn read_enumerations_say_nothing_of_writes(sets: Seq<SvdEnumeratedValuesView>)
    requires
        forall|i: int| 0 <= i < sets.len() ==> (#[trigger] sets[i]).usage == Some(SvdUsage::Read),
    ensures
        write_enum(sets) is None,
    decreases sets.len(),
{
    if sets.len() > 0 {
        let rest = sets.drop_first();
        assert forall|i: int| 0 <= i < rest.len() implies (#[trigger] rest[i]).usage == Some(SvdUsage::Read) by {
            assert(rest[i] == sets[i + 1]);
        }
        read_enumerations_say_nothing_of_writes(rest);
    }
}

/// A field that has allowed values has at least one.
pub proof fn enumerations_are_not_empty(sets: Seq<SvdEnumeratedValuesView>)
    ensures
        write_enum(sets) matches Some(values) ==> values.len() > 0,
{
}

} // verus!
