//! The parts of a CMSIS-SVD document that the model is built from, as plain values.

use vstd::prelude::*;

use crate::text;

verus! {

/// Access rights of a register or a field.
#[derive(Debug, Clone, Copy, PartialEq, Eq, Structural)]
pub enum Access {
    /// Read access is permitted. Write operations have an undefined effect.
    ReadOnly,
    /// Read and write accesses are permitted.
    ReadWrite,
    /// Read access is always permitted. Only the first write after a reset has an effect.
    ReadWriteOnce,
    /// Only the first write after a reset has an effect; reads are undefined.
    WriteOnce,
    /// Write access is permitted; reads are undefined.
    WriteOnly,
}

/// Which accesses a set of enumerated values speaks of.
#[derive(Debug, Clone, Copy, PartialEq, Eq, Structural)]
pub enum SvdUsage {
    Read,
    Write,
    ReadWrite,
}

/// A range of addresses relative to a peripheral's base address.
#[derive(Debug, Clone, Copy, PartialEq, Eq, Structural)]
pub struct AddressBlock {
    pub offset: u32,
    pub size: u32,
}

/// A device: its peripherals in document order.
#[derive(Debug)]
pub struct SvdDevice {
    pub peripherals: Vec<SvdPeripheral>,
}

#[derive(Debug)]
pub struct SvdPeripheral {
    pub name: String,
    pub base_address: u64,
    pub address_blocks: Vec<AddressBlock>,
    /// `None` where the document has no `<registers>` element.
    pub registers: Option<Vec<SvdRegisterCluster>>,
}

#[derive(Debug)]
pub enum SvdRegisterCluster {
    Register(SvdRegister),
    Cluster(SvdCluster),
}

#[derive(Debug)]
pub struct SvdCluster {
    pub address_offset: u32,
    pub children: Vec<SvdRegisterCluster>,
}

#[derive(Debug)]
pub struct SvdRegister {
    pub name: String,
    pub address_offset: u32,
    pub size: Option<u32>,
    pub access: Option<Access>,
    pub reset_value: Option<u64>,
    /// `None` where the document has no `<fields>` element.
    pub fields: Option<Vec<SvdField>>,
}

#[derive(Debug)]
pub struct SvdField {
    pub name: String,
    pub bit_offset: u32,
    pub bit_width: u32,
    pub access: Option<Access>,
    pub enumerated_values: Vec<SvdEnumeratedValues>,
}

#[derive(Debug)]
pub struct SvdEnumeratedValues {
    pub usage: Option<SvdUsage>,
    pub values: Vec<SvdEnumeratedValue>,
}

#[derive(Debug)]
pub struct SvdEnumeratedValue {
    pub name: String,
    /// `None` for the entry that stands for all values not listed.
    pub value: Option<u64>,
}

// ── Views ────────────────────────────────────────────────────────────────────

pub struct SvdEnumeratedValueView {
    pub name: Seq<char>,
    pub value: Option<u64>,
}

pub struct SvdEnumeratedValuesView {
    pub usage: Option<SvdUsage>,
    pub values: Seq<SvdEnumeratedValueView>,
}

pub struct SvdFieldView {
    pub name: Seq<char>,
    pub bit_offset: u32,
    pub bit_width: u32,
    pub access: Option<Access>,
    pub enumerated_values: Seq<SvdEnumeratedValuesView>,
}

pub struct SvdRegisterView {
    pub name: Seq<char>,
    pub address_offset: u32,
    pub size: Option<u32>,
    pub access: Option<Access>,
    pub reset_value: Option<u64>,
    pub fields: Option<Seq<SvdFieldView>>,
}

pub enum SvdRegisterClusterView {
    Register(SvdRegisterView),
    Cluster(u32, Seq<SvdRegisterClusterView>),
}

pub struct SvdPeripheralView {
    pub name: Seq<char>,
    pub base_address: u64,
    pub address_blocks: Seq<AddressBlock>,
    pub registers: Option<Seq<SvdRegisterClusterView>>,
}

impl View for SvdEnumeratedValue {
    type V = SvdEnumeratedValueView;

    open spec fn view(&self) -> SvdEnumeratedValueView {
        SvdEnumeratedValueView { name: self.name@, value: self.value }
    }
}

impl View for SvdEnumeratedValues {
    type V = SvdEnumeratedValuesView;

    open spec fn view(&self) -> SvdEnumeratedValuesView {
        SvdEnumeratedValuesView { usage: self.usage, values: text::views(self.values@) }
    }
}

impl View for SvdField {
    type V = SvdFieldView;

    open spec fn view(&self) -> SvdFieldView {
        SvdFieldView {
            name: self.name@,
            bit_offset: self.bit_offset,
            bit_width: self.bit_width,
            access: self.access,
            enumerated_values: text::views(self.enumerated_values@),
        }
    }
}

impl View for SvdRegister {
    type V = SvdRegisterView;

    open spec fn view(&self) -> SvdRegisterView {
        SvdRegisterView {
            name: self.name@,
            address_offset: self.address_offset,
            size: self.size,
            access: self.access,
            reset_value: self.reset_value,
            fields: match self.fields {
                Some(fields) => Some(text::views(fields@)),
                None => None,
            },
        }
    }
}

/// The view of a register or a cluster, down to its registers.
pub open spec fn cluster_view(rc: SvdRegisterCluster) -> SvdRegisterClusterView
    decreases rc,
{
    match rc {
        SvdRegisterCluster::Register(r) => SvdRegisterClusterView::Register(r@),
        SvdRegisterCluster::Cluster(c) => SvdRegisterClusterView::Cluster(
            c.address_offset,
            Seq::new(
                c.children@.len(),
                |i: int|
                    if 0 <= i < c.children@.len() {
                        cluster_view(c.children@[i])
                    } else {
                        arbitrary()
                    },
            ),
        ),
    }
}

impl View for SvdRegisterCluster {
    type V = SvdRegisterClusterView;

    open spec fn view(&self) -> SvdRegisterClusterView {
        cluster_view(*self)
    }
}

impl View for SvdPeripheral {
    type V = SvdPeripheralView;

    open spec fn view(&self) -> SvdPeripheralView {
        SvdPeripheralView {
            name: self.name@,
            base_address: self.base_address,
            address_blocks: self.address_blocks@,
            registers: match self.registers {
                Some(children) => Some(text::views(children@)),
                None => None,
            },
        }
    }
}

impl View for SvdDevice {
    type V = Seq<SvdPeripheralView>;

    open spec fn view(&self) -> Seq<SvdPeripheralView> {
        text::views(self.peripherals@)
    }
}

/// The view of a cluster holds the views of its children.
pub broadcast proof fn lemma_cluster_view(c: SvdCluster)
    ensures
        #[trigger] SvdRegisterCluster::Cluster(c)@ == SvdRegisterClusterView::Cluster(
            c.address_offset,
            text::views(c.children@),
        ),
{
    let seen = SvdRegisterCluster::Cluster(c)@;
    assert(seen->Cluster_1 =~= text::views(c.children@));
}

} // verus!
