//! Reading a CMSIS-SVD document with the `svd-parser` crate.
//!
//! The crate parses the XML text, expands arrays and resolves `derivedFrom`
//! references. What it hands back is a tree of its own types; the wrappers below
//! read that tree part by part, and the verified functions rebuild it as plain
//! values.
//!
//! On some documents the crate would give up by a panic or by recursion without end.
//! These are told beforehand: by their text, and, once they are parsed as they stand,
//! by what they derive from what.

use vstd::prelude::*;

use svd_parser::svd;

use crate::svd::{
    AddressBlock, Access, SvdCluster, SvdDevice, SvdEnumeratedValue, SvdEnumeratedValues,
    SvdEnumeratedValuesView, SvdField, SvdFieldView, SvdPeripheral, SvdPeripheralView, SvdRegister,
    SvdRegisterCluster, SvdRegisterClusterView, SvdRegisterView, SvdUsage,
};
use crate::svd_items;
use crate::svd_items::{HeadView, ItemHead, ItemKind, ItemView, SvdItem};
use crate::svd_model::{Model, ModelView};
use crate::svd_text;
use crate::text;

verus! {

broadcast use crate::text::group_views;

/// `anyhow::Error`: why a document was refused.
#[verifier::external_type_specification]
#[verifier::external_body]
pub struct ExAnyhowError(anyhow::Error);

/// `svd_parser::svd::Device`: a parsed document.
#[verifier::external_type_specification]
#[verifier::external_body]
pub struct ExDevice(svd::Device);

/// `svd_parser::svd::MaybeArray`: a parsed peripheral, register, cluster or field, single or an array.
#[verifier::external_type_specification]
#[verifier::external_body]
#[verifier::reject_recursive_types(T)]
pub struct ExMaybeArray<T>(svd::MaybeArray<T>);

/// `svd_parser::svd::PeripheralInfo`: a parsed peripheral.
#[verifier::external_type_specification]
#[verifier::external_body]
pub struct ExPeripheralInfo(svd::PeripheralInfo);

/// `svd_parser::svd::ClusterInfo`: a parsed cluster.
#[verifier::external_type_specification]
#[verifier::external_body]
pub struct ExClusterInfo(svd::ClusterInfo);

/// `svd_parser::svd::RegisterCluster`: a parsed register or cluster.
#[verifier::external_type_specification]
#[verifier::external_body]
pub struct ExRegisterCluster(svd::RegisterCluster);

/// `svd_parser::svd::RegisterInfo`: a parsed register.
#[verifier::external_type_specification]
#[verifier::external_body]
pub struct ExRegisterInfo(svd::RegisterInfo);

/// `svd_parser::svd::FieldInfo`: a parsed field.
#[verifier::external_type_specification]
#[verifier::external_body]
pub struct ExFieldInfo(svd::FieldInfo);

/// What `svd_parser::parse_with_config` makes of a document's text, arrays
/// expanded and properties inherited: the peripherals that the device holds, or
/// `None` where the text is refused.
pub uninterp spec fn svd_document(xml: Seq<char>) -> Option<Seq<SvdPeripheralView>>;

/// The peripherals that a parsed device holds.
pub uninterp spec fn device_contents(device: svd::Device) -> Seq<SvdPeripheralView>;

/// What a parsed peripheral holds.
pub uninterp spec fn peripheral_contents(peripheral: svd::Peripheral) -> SvdPeripheralView;

/// What a parsed register or cluster holds.
pub uninterp spec fn cluster_contents(rc: svd::RegisterCluster) -> SvdRegisterClusterView;

/// What a parsed register holds.
pub uninterp spec fn register_contents(register: svd::Register) -> SvdRegisterView;

/// What a parsed field holds.
pub uninterp spec fn field_contents(field: svd::Field) -> SvdFieldView;

/// What `svd_parser::parse` makes of a document's text, with nothing expanded and nothing
/// derived: its items and what they derive from, or `None` where the text is refused.
pub uninterp spec fn plain_document(xml: Seq<char>) -> Option<Seq<ItemView>>;

/// The peripherals of a parsed device, as items.
pub uninterp spec fn device_items(device: svd::Device) -> Seq<ItemView>;

/// A parsed peripheral, as an item.
pub uninterp spec fn peripheral_item(peripheral: svd::Peripheral) -> ItemView;

/// A parsed register or cluster, as an item.
pub uninterp spec fn cluster_item(rc: svd::RegisterCluster) -> ItemView;

/// A parsed register, as an item.
pub uninterp spec fn register_item(register: svd::Register) -> ItemView;

/// A parsed field, as an item.
pub uninterp spec fn field_item(field: svd::Field) -> ItemView;

/// How a parsed cluster is called, and what it derives from.
pub uninterp spec fn cluster_head(cluster: svd::Cluster) -> HeadView;

/// A parsed register or cluster, opened.
enum ClusterParts<'d> {
    Register(&'d svd::Register),
    Cluster(&'d svd::Cluster, u32, &'d Vec<svd::RegisterCluster>),
}

/// An item with that kind and that head.
pub open spec fn titled(item: ItemView, kind: ItemKind, head: HeadView) -> ItemView {
    ItemView { kind, head, ..item }
}

/// Whether the items are those of registers and clusters.
pub open spec fn are_items(children: Seq<svd::RegisterCluster>, items: Seq<ItemView>) -> bool {
    children.len() == items.len() && forall|i: int|
        0 <= i < children.len() ==> cluster_item(#[trigger] children[i]) == items[i]
}

/// `svd_parser::parse`: the device as the document describes it, with nothing expanded
/// and nothing derived. It panics on a `writeConstraint` of a register or field that holds
/// no element and, where overflow is checked, on a field whose bits go from 0 to the highest
/// number of thirty-two bits. Memory and stack for what the document holds are taken for
/// granted.
#[verifier::external_body]
fn parse_plain(xml: &str) -> (r: Result<svd::Device, anyhow::Error>)
    requires
        svd_text::readable(xml@),
    ensures
        match r {
            Ok(device) => plain_document(xml@) == Some(device_items(device)),
            Err(_) => plain_document(xml@) is None,
        },
{
    svd_parser::parse(xml)
}

/// `svd_parser::parse_with_config` with arrays expanded and register properties
/// inherited. The device that comes back holds what `svd_document` says of the
/// text, and an error comes back exactly where `svd_document` has nothing. What makes
/// `svd_parser::parse` panic does so here too. So do, once it is parsed, a field that
/// derives from a path of two parts, derivations or nested clusters that lead back to
/// themselves, which are followed without end, and, where overflow is checked, offsets
/// that do not fit. Memory and stack for what the document holds are taken for granted.
#[verifier::external_body]
fn parse_document(xml: &str) -> (r: Result<svd::Device, anyhow::Error>)
    requires
        svd_text::readable(xml@),
        plain_document(xml@) matches Some(items) && svd_items::expandable(items),
    ensures
        match r {
            Ok(device) => svd_document(xml@) == Some(device_contents(device)),
            Err(_) => svd_document(xml@) is None,
        },
{
    let config = svd_parser::Config::default().expand(true).expand_properties(true);
    svd_parser::parse_with_config(xml, &config)
}

/// The `peripherals` of a `svd::Device`, in order.
#[verifier::external_body]
fn device_peripherals(device: &svd::Device) -> (r: &Vec<svd::Peripheral>)
    ensures
        r@.len() == device_contents(*device).len(),
        forall|i: int| 0 <= i < r@.len() ==> peripheral_contents(#[trigger] r@[i]) == device_contents(*device)[i],
        r@.len() == device_items(*device).len(),
        forall|i: int| 0 <= i < r@.len() ==> peripheral_item(#[trigger] r@[i]) == device_items(*device)[i],
{
    &device.peripherals
}

/// The `name`, the `base_address` and the address blocks of a `svd::Peripheral`,
/// each block by its offset and size.
#[verifier::external_body]
fn peripheral_head(p: &svd::Peripheral) -> (r: (String, u64, Vec<AddressBlock>))
    ensures
        r.0@ == peripheral_contents(*p).name,
        r.1 == peripheral_contents(*p).base_address,
        r.2@ == peripheral_contents(*p).address_blocks,
        r.1 == peripheral_item(*p).offset,
{
    let blocks = p.address_block.iter().flatten();
    let blocks = blocks.map(|b| AddressBlock { offset: b.offset, size: b.size }).collect();
    (p.name.clone(), p.base_address, blocks)
}

/// The `registers` of a `svd::Peripheral`, where it has them.
#[verifier::external_body]
fn peripheral_children(p: &svd::Peripheral) -> (r: Option<&Vec<svd::RegisterCluster>>)
    ensures
        match (r, peripheral_contents(*p).registers) {
            (Some(children), Some(contents)) => children@.len() == contents.len() && forall|i: int|
                0 <= i < children@.len() ==> cluster_contents(#[trigger] children@[i]) == contents[i],
            (None, None) => true,
            _ => false,
        },
        match r {
            Some(children) => peripheral_item(*p).own && are_items(children@, peripheral_item(*p).items),
            None => !peripheral_item(*p).own && peripheral_item(*p).items.len() == 0,
        },
{
    p.registers.as_ref()
}

/// A `svd::RegisterCluster`, told apart: a register, or a cluster by its
/// `address_offset` and `children`.
#[verifier::external_body]
fn cluster_parts(rc: &svd::RegisterCluster) -> (r: ClusterParts<'_>)
    ensures
        match (r, cluster_contents(*rc)) {
            (ClusterParts::Register(register), SvdRegisterClusterView::Register(contents)) =>
                register_contents(*register) == contents,
            (ClusterParts::Cluster(_, offset, children), SvdRegisterClusterView::Cluster(o, contents)) => {
                &&& offset == o
                &&& children@.len() == contents.len()
                &&& forall|i: int|
                    0 <= i < children@.len() ==> cluster_contents(#[trigger] children@[i]) == contents[i]
            },
            _ => false,
        },
        match r {
            ClusterParts::Register(register) => cluster_item(*rc) == register_item(*register),
            ClusterParts::Cluster(cluster, offset, children) => {
                &&& cluster_item(*rc).kind == ItemKind::Cluster
                &&& cluster_item(*rc).head == cluster_head(*cluster)
                &&& cluster_item(*rc).offset == offset
                &&& cluster_item(*rc).own == (children@.len() > 0)
                &&& are_items(children@, cluster_item(*rc).items)
            },
        },
{
    match rc {
        svd::RegisterCluster::Register(r) => ClusterParts::Register(r),
        svd::RegisterCluster::Cluster(c) => ClusterParts::Cluster(c, c.address_offset, &c.children),
    }
}

/// The `name`, the `address_offset` and the size, access and reset value of a
/// `svd::Register`.
#[verifier::external_body]
fn register_head(r: &svd::Register) -> (h: (String, u32, Option<u32>, Option<Access>, Option<u64>))
    ensures
        h.0@ == register_contents(*r).name,
        h.1 == register_contents(*r).address_offset,
        h.2 == register_contents(*r).size,
        h.3 == register_contents(*r).access,
        h.4 == register_contents(*r).reset_value,
        h.1 == register_item(*r).offset,
{
    let access = r.properties.access.map(|a| match a {
        svd::Access::ReadOnly => Access::ReadOnly,
        svd::Access::ReadWrite => Access::ReadWrite,
        svd::Access::ReadWriteOnce => Access::ReadWriteOnce,
        svd::Access::WriteOnce => Access::WriteOnce,
        svd::Access::WriteOnly => Access::WriteOnly,
    });
    (r.name.clone(), r.address_offset, r.properties.size, access, r.properties.reset_value)
}

/// The `fields` of a `svd::Register`, where it has them.
#[verifier::external_body]
fn register_fields(r: &svd::Register) -> (fields: Option<&Vec<svd::Field>>)
    ensures
        match (fields, register_contents(*r).fields) {
            (Some(fields), Some(contents)) => fields@.len() == contents.len() && forall|i: int|
                0 <= i < fields@.len() ==> field_contents(#[trigger] fields@[i]) == contents[i],
            (None, None) => true,
            _ => false,
        },
        match fields {
            Some(fields) => register_item(*r).own && fields@.len() == register_item(*r).items.len() && forall|i: int|
                0 <= i < fields@.len() ==> field_item(#[trigger] fields@[i]) == register_item(*r).items[i],
            None => !register_item(*r).own && register_item(*r).items.len() == 0,
        },
{
    r.fields.as_ref()
}

/// The `name`, the offset and width of the bit range, and the access of a
/// `svd::Field`.
#[verifier::external_body]
fn field_head(f: &svd::Field) -> (h: (String, u32, u32, Option<Access>))
    ensures
        h.0@ == field_contents(*f).name,
        h.1 == field_contents(*f).bit_offset,
        h.2 == field_contents(*f).bit_width,
        h.3 == field_contents(*f).access,
        h.1 == field_item(*f).offset,
{
    let access = f.access.map(|a| match a {
        svd::Access::ReadOnly => Access::ReadOnly,
        svd::Access::ReadWrite => Access::ReadWrite,
        svd::Access::ReadWriteOnce => Access::ReadWriteOnce,
        svd::Access::WriteOnce => Access::WriteOnce,
        svd::Access::WriteOnly => Access::WriteOnly,
    });
    (f.name.clone(), f.bit_range.offset, f.bit_range.width, access)
}

/// The `enumerated_values` of a `svd::Field`: each set by its usage and its
/// values, each value by its name and number.
#[verifier::external_body]
fn field_enums(f: &svd::Field) -> (sets: Vec<SvdEnumeratedValues>)
    ensures
        text::views(sets@) == field_contents(*f).enumerated_values,
{
    let set = |s: &svd::EnumeratedValues| SvdEnumeratedValues {
        usage: s.usage.map(|u| match u {
            svd::Usage::Read => SvdUsage::Read,
            svd::Usage::Write => SvdUsage::Write,
            svd::Usage::ReadWrite => SvdUsage::ReadWrite,
        }),
        values: s.values.iter().map(|v| SvdEnumeratedValue { name: v.name.clone(), value: v.value }).collect(),
    };
    f.enumerated_values.iter().map(set).collect()
}

/// The `name` and the `derived_from` of a `svd::Peripheral`, and of an array the names that
/// `svd::array::names` gives its elements, their number and their distance.
#[verifier::external_body]
fn peripheral_head_of(p: &svd::Peripheral) -> (r: ItemHead)
    ensures
        peripheral_item(*p) == titled(peripheral_item(*p), ItemKind::Peripheral, r@),
{
    let (elements, dim) = match p {
        svd::MaybeArray::Single(_) => (Vec::new(), None),
        svd::MaybeArray::Array(info, d) => (svd::array::names(info, d).collect(), Some((d.dim, d.dim_increment))),
    };
    ItemHead { name: Some(p.name.clone()), elements, derived_from: p.derived_from.clone(), dim }
}

/// The `name` and the `derived_from` of a `svd::Cluster`, and of an array the names that
/// `svd::array::names` gives its elements, their number and their distance.
#[verifier::external_body]
fn cluster_head_of(c: &svd::Cluster) -> (r: ItemHead)
    ensures
        cluster_head(*c) == r@,
{
    let (elements, dim) = match c {
        svd::MaybeArray::Single(_) => (Vec::new(), None),
        svd::MaybeArray::Array(info, d) => (svd::array::names(info, d).collect(), Some((d.dim, d.dim_increment))),
    };
    ItemHead { name: Some(c.name.clone()), elements, derived_from: c.derived_from.clone(), dim }
}

/// The `name` and the `derived_from` of a `svd::Register`, and of an array the names that
/// `svd::array::names` gives its elements, their number and their distance.
#[verifier::external_body]
fn register_head_of(reg: &svd::Register) -> (r: ItemHead)
    ensures
        register_item(*reg) == titled(register_item(*reg), ItemKind::Register, r@),
{
    let (elements, dim) = match reg {
        svd::MaybeArray::Single(_) => (Vec::new(), None),
        svd::MaybeArray::Array(info, d) => (svd::array::names(info, d).collect(), Some((d.dim, d.dim_increment))),
    };
    ItemHead { name: Some(reg.name.clone()), elements, derived_from: reg.derived_from.clone(), dim }
}

/// The `name` and the `derived_from` of a `svd::Field`, and of an array the names that
/// `svd::array::names` gives its elements, their number and their distance.
#[verifier::external_body]
fn field_head_of(f: &svd::Field) -> (r: ItemHead)
    ensures
        field_item(*f) == titled(field_item(*f), ItemKind::Field, r@),
{
    let (elements, dim) = match f {
        svd::MaybeArray::Single(_) => (Vec::new(), None),
        svd::MaybeArray::Array(info, d) => (svd::array::names(info, d).collect(), Some((d.dim, d.dim_increment))),
    };
    ItemHead { name: Some(f.name.clone()), elements, derived_from: f.derived_from.clone(), dim }
}

/// The `enumerated_values` of a `svd::Field`, each by its `name` and `derived_from`.
#[verifier::external_body]
fn field_enum_items(f: &svd::Field) -> (r: Vec<SvdItem>)
    ensures
        field_item(*f).own == (r@.len() > 0),
        field_item(*f).items == text::views(r@),
{
    let item = |s: &svd::EnumeratedValues| SvdItem {
        kind: ItemKind::Enum,
        head: ItemHead {
            name: s.name.clone(),
            elements: Vec::new(),
            derived_from: s.derived_from.clone(),
            dim: None,
        },
        offset: 0,
        own: false,
        items: Vec::new(),
    };
    f.enumerated_values.iter().map(item).collect()
}

fn read_field(f: &svd::Field) -> (r: SvdField)
    ensures
        r@ == field_contents(*f),
{
    let (name, bit_offset, bit_width, access) = field_head(f);
    SvdField { name, bit_offset, bit_width, access, enumerated_values: field_enums(f) }
}

fn read_register(register: &svd::Register) -> (r: SvdRegister)
    ensures
        r@ == register_contents(*register),
{
    let (name, address_offset, size, access, reset_value) = register_head(register);
    let fields = match register_fields(register) {
        None => None,
        Some(parsed) => {
            let mut out: Vec<SvdField> = Vec::new();
            let ghost contents = register_contents(*register).fields->0;
            let mut i: usize = 0;
            while i < parsed.len()
                invariant
                    i <= parsed@.len(),
                    parsed@.len() == contents.len(),
                    forall|j: int| 0 <= j < parsed@.len() ==> field_contents(#[trigger] parsed@[j]) == contents[j],
                    text::views(out@) =~= contents.take(i as int),
                decreases parsed.len() - i,
            {
                out.push(read_field(&parsed[i]));
                i += 1;
            }
            assert(contents.take(i as int) =~= contents);
            Some(out)
        },
    };
    SvdRegister { name, address_offset, size, access, reset_value, fields }
}

fn read_children(children: &Vec<svd::RegisterCluster>, Ghost(contents): Ghost<Seq<SvdRegisterClusterView>>) -> (r: Vec<SvdRegisterCluster>)
    requires
        children@.len() == contents.len(),
        forall|i: int| 0 <= i < children@.len() ==> cluster_contents(#[trigger] children@[i]) == contents[i],
    ensures
        text::views(r@) == contents,
    decreases contents,
{
    let mut out: Vec<SvdRegisterCluster> = Vec::new();
    let mut i: usize = 0;
    while i < children.len()
        invariant
            i <= children@.len(),
            children@.len() == contents.len(),
            forall|j: int| 0 <= j < children@.len() ==> cluster_contents(#[trigger] children@[j]) == contents[j],
            text::views(out@) =~= contents.take(i as int),
        decreases children.len() - i,
    {
        out.push(read_cluster(&children[i]));
        i += 1;
    }
    assert(contents.take(i as int) =~= contents);
    out
}

fn read_cluster(rc: &svd::RegisterCluster) -> (r: SvdRegisterCluster)
    ensures
        r@ == cluster_contents(*rc),
    decreases cluster_contents(*rc),
{
    match cluster_parts(rc) {
        ClusterParts::Register(register) => SvdRegisterCluster::Register(read_register(register)),
        ClusterParts::Cluster(_, address_offset, children) => {
            broadcast use crate::svd::lemma_cluster_view;
            let ghost contents = cluster_contents(*rc)->Cluster_1;
            SvdRegisterCluster::Cluster(
                SvdCluster { address_offset, children: read_children(children, Ghost(contents)) },
            )
        },
    }
}

fn read_peripheral(p: &svd::Peripheral) -> (r: SvdPeripheral)
    ensures
        r@ == peripheral_contents(*p),
{
    let (name, base_address, address_blocks) = peripheral_head(p);
    let registers = match peripheral_children(p) {
        Some(children) => Some(read_children(children, Ghost(peripheral_contents(*p).registers->0))),
        None => None,
    };
    SvdPeripheral { name, base_address, address_blocks, registers }
}

/// The device that a document describes, as plain values.
fn read_device(device: &svd::Device) -> (r: SvdDevice)
    ensures
        r@ == device_contents(*device),
{
    let parsed = device_peripherals(device);
    let ghost contents = device_contents(*device);
    let mut peripherals: Vec<SvdPeripheral> = Vec::new();
    let mut i: usize = 0;
    while i < parsed.len()
        invariant
            i <= parsed@.len(),
            parsed@.len() == contents.len(),
            forall|j: int| 0 <= j < parsed@.len() ==> peripheral_contents(#[trigger] parsed@[j]) == contents[j],
            text::views(peripherals@) =~= contents.take(i as int),
        decreases parsed.len() - i,
    {
        peripherals.push(read_peripheral(&parsed[i]));
        i += 1;
    }
    assert(contents.take(i as int) =~= contents);
    SvdDevice { peripherals }
}

fn field_as_item(f: &svd::Field) -> (r: SvdItem)
    ensures
        r@ == field_item(*f),
{
    broadcast use crate::svd_items::lemma_item_items;
    let items = field_enum_items(f);
    let own = items.len() > 0;
    let head = field_head_of(f);
    let offset: u64 = field_head(f).1 as u64;
    SvdItem { kind: ItemKind::Field, head, offset, own, items }
}

fn register_as_item(register: &svd::Register) -> (r: SvdItem)
    ensures
        r@ == register_item(*register),
{
    broadcast use crate::svd_items::lemma_item_items;
    let head = register_head_of(register);
    let offset: u64 = register_head(register).1 as u64;
    let ghost all = register_item(*register).items;
    let mut items: Vec<SvdItem> = Vec::new();
    let own = match register_fields(register) {
        None => {
            assert(all =~= Seq::<ItemView>::empty());
            false
        },
        Some(fields) => {
            let mut i: usize = 0;
            while i < fields.len()
                invariant
                    i <= fields@.len(),
                    fields@.len() == all.len(),
                    forall|j: int| 0 <= j < fields@.len() ==> field_item(#[trigger] fields@[j]) == all[j],
                    text::views(items@) =~= all.take(i as int),
                decreases fields.len() - i,
            {
                items.push(field_as_item(&fields[i]));
                i += 1;
            }
            assert(all.take(i as int) =~= all);
            true
        },
    };
    SvdItem { kind: ItemKind::Register, head, offset, own, items }
}

fn children_as_items(children: &Vec<svd::RegisterCluster>, Ghost(all): Ghost<Seq<ItemView>>) -> (r: Vec<SvdItem>)
    requires
        are_items(children@, all),
    ensures
        text::views(r@) == all,
    decreases all,
{
    let mut out: Vec<SvdItem> = Vec::new();
    let mut i: usize = 0;
    while i < children.len()
        invariant
            i <= children@.len(),
            are_items(children@, all),
            text::views(out@) =~= all.take(i as int),
        decreases children.len() - i,
    {
        out.push(child_as_item(&children[i]));
        i += 1;
    }
    assert(all.take(i as int) =~= all);
    out
}

fn child_as_item(rc: &svd::RegisterCluster) -> (r: SvdItem)
    ensures
        r@ == cluster_item(*rc),
    decreases cluster_item(*rc),
{
    match cluster_parts(rc) {
        ClusterParts::Register(register) => register_as_item(register),
        ClusterParts::Cluster(cluster, offset, children) => {
            broadcast use crate::svd_items::lemma_item_items;
            let head = cluster_head_of(cluster);
            let own = children.len() > 0;
            let items = children_as_items(children, Ghost(cluster_item(*rc).items));
            SvdItem { kind: ItemKind::Cluster, head, offset: offset as u64, own, items }
        },
    }
}

/// The peripherals of a device, as items.
fn device_as_items(device: &svd::Device) -> (r: Vec<SvdItem>)
    ensures
        text::views(r@) == device_items(*device),
{
    let parsed = device_peripherals(device);
    let ghost all = device_items(*device);
    let mut out: Vec<SvdItem> = Vec::new();
    let mut i: usize = 0;
    while i < parsed.len()
        invariant
            i <= parsed@.len(),
            parsed@.len() == all.len(),
            forall|j: int| 0 <= j < parsed@.len() ==> peripheral_item(#[trigger] parsed@[j]) == all[j],
            text::views(out@) =~= all.take(i as int),
        decreases parsed.len() - i,
    {
        let p = &parsed[i];
        let head = peripheral_head_of(p);
        let offset: u64 = peripheral_head(p).1;
        let ghost inner = peripheral_item(*p).items;
        let (own, items) = match peripheral_children(p) {
            Some(children) => (true, children_as_items(children, Ghost(inner))),
            None => (false, Vec::new()),
        };
        assert(text::views(items@) =~= inner);
        let item = SvdItem { kind: ItemKind::Peripheral, head, offset, own, items };
        proof {
            svd_items::lemma_item_items(item);
        }
        assert(item@ == all[i as int]);
        out.push(item);
        i += 1;
    }
    assert(all.take(i as int) =~= all);
    out
}

/// Why a model could not be made.
#[derive(Debug)]
pub enum ModelError {
    /// The text is not a CMSIS-SVD document.
    Parse(anyhow::Error),
    /// An element cannot be read: a `writeConstraint` that constrains nothing, or a field with
    /// more bits than thirty-two bits can count.
    Unreadable,
    /// Derivations or clusters lead back to themselves, the path of a derivation cannot be read,
    /// or offsets do not fit.
    Unexpandable,
}

impl ModelError {
    /// The error in words.
    pub fn message(&self) -> (r: &'static str)
        ensures
            r@ == "failed to parse SVD"@,
    {
        "failed to parse SVD"
    }
}

/// The peripherals that a document describes, where it can be read and expanded and the
/// parser takes it.
pub open spec fn document(xml: Seq<char>) -> Option<Seq<SvdPeripheralView>> {
    match plain_document(xml) {
        Some(items) if svd_text::readable(xml) && svd_items::expandable(items) => svd_document(xml),
        _ => None,
    }
}

impl Model {
    /// Parses a CMSIS-SVD XML document into a queryable model.
    pub fn from_svd_str(xml: &str) -> (r: Result<Model, ModelError>)
        ensures
            match r {
                Ok(model) => document(xml@) matches Some(device) && model@ == crate::svd_model::model_of(device),
                Err(ModelError::Unreadable) => !svd_text::readable(xml@),
                Err(ModelError::Unexpandable) => svd_text::readable(xml@) && (plain_document(xml@) matches Some(items)
                    && !svd_items::expandable(items)),
                Err(ModelError::Parse(_)) => svd_text::readable(xml@) && (plain_document(xml@) matches Some(items)
                    ==> svd_items::expandable(items) && svd_document(xml@) is None),
            },
    {
        if !svd_text::is_readable(xml) {
            return Err(ModelError::Unreadable);
        }
        let plain = match parse_plain(xml) {
            Ok(device) => device,
            Err(e) => {
                return Err(ModelError::Parse(e));
            },
        };
        if !svd_items::is_expandable(&device_as_items(&plain)) {
            return Err(ModelError::Unexpandable);
        }
        match parse_document(xml) {
            Ok(device) => Ok(Model::from_device(&read_device(&device))),
            Err(e) => Err(ModelError::Parse(e)),
        }
    }
}

} // verus!
