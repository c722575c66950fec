//! What the model says of a device, in terms of the SVD document.

use vstd::prelude::*;

use crate::bits;
use crate::svd::{
    Access, SvdEnumeratedValueView, SvdEnumeratedValuesView, SvdFieldView, SvdPeripheralView, SvdRegisterClusterView,
    SvdRegisterView, SvdUsage,
};
use crate::svd_model;
use crate::svd_model::{EnumValueView, FieldView, RegisterView};
use crate::write_laws;

verus! {

/// The model has the peripherals of the document, in order, each with its name, its base
/// address and its address blocks.
pub proof fn models_have_every_peripheral(device: Seq<SvdPeripheralView>, i: int)
    requires
        0 <= i < device.len(),
    ensures
        svd_model::model_of(device).peripherals.len() == device.len(),
        ({
            let p = svd_model::model_of(device).peripherals[i];
            &&& p.name == device[i].name
            &&& p.base_address == device[i].base_address
            &&& p.address_blocks == device[i].address_blocks
            &&& device[i].registers is None ==> p.registers.len() == 0
            &&& device[i].registers matches Some(children) ==> p.registers == svd_model::all_registers(children, 0)
        }),
{
}

/// The registers of a list are those of its parts, in order.
pub proof fn registers_come_in_order(
    a: Seq<SvdRegisterClusterView>,
    b: Seq<SvdRegisterClusterView>,
    base: u32,
)
    ensures
        svd_model::all_registers(a + b, base) == svd_model::all_registers(a, base) + svd_model::all_registers(b, base),
    decreases b.len(),
{
    if b.len() == 0 {
        assert(a + b =~= a);
        assert(svd_model::all_registers(a, base) + svd_model::all_registers(b, base) =~= svd_model::all_registers(
            a,
            base,
        ));
    } else {
        registers_come_in_order(a, b.drop_last(), base);
        assert((a + b).drop_last() =~= a + b.drop_last());
        assert((a + b).last() == b.last());
        assert(svd_model::all_registers(a + b, base) =~= svd_model::all_registers(a, base) + svd_model::all_registers(
            b,
            base,
        ));
    }
}

/// Whether `m` is what the model has of the register `r`, whose clusters start at `base`:
/// its offsets added up, thirty-two bits and free access where it says nothing else.
pub open spec fn describes(m: RegisterView, r: SvdRegisterView, base: u32) -> bool {
    &&& m.name == r.name
    &&& base + r.address_offset <= u32::MAX ==> m.address_offset == base + r.address_offset
    &&& base + r.address_offset > u32::MAX ==> m.address_offset == base + r.address_offset - 0x1_0000_0000
    &&& r.size matches Some(size) ==> m.size_bits == size
    &&& r.size is None ==> m.size_bits == 32
    &&& r.access matches Some(access) ==> m.access == access
    &&& r.access is None ==> m.access == Access::ReadWrite
    &&& m.reset_value == r.reset_value
    &&& r.fields is None ==> m.fields.len() == 0
    &&& r.fields matches Some(fields) ==> m.fields.len() == fields.len() && forall|i: int|
        0 <= i < fields.len() ==> describes_field(#[trigger] m.fields[i], fields[i], m)
}

/// Whether `m` is what the model has of the field `f`: the access of its register where it
/// has none, and the bits of the register's reset value that are its own.
pub open spec fn describes_field(m: FieldView, f: SvdFieldView, register: RegisterView) -> bool {
    &&& m.name == f.name
    &&& m.bit_offset == f.bit_offset
    &&& m.bit_width == f.bit_width
    &&& f.access matches Some(access) ==> m.access == access
    &&& f.access is None ==> m.access == register.access
    &&& register.reset_value is None ==> m.reset_value is None
    &&& register.reset_value matches Some(reset) ==> (m.reset_value matches Some(own) && write_laws::held(reset, m, own))
    &&& m.allowed_values == svd_model::write_enum(f.enumerated_values)
}

/// A register is in the model as the document describes it.
pub proof fn registers_are_described(r: SvdRegisterView, base: u32)
    ensures
        ({
            let all = svd_model::all_registers(seq![SvdRegisterClusterView::Register(r)], base);
            all.len() == 1 && describes(all[0], r, base)
        }),
{
    let children = seq![SvdRegisterClusterView::Register(r)];
    assert(children.drop_last() =~= Seq::<SvdRegisterClusterView>::empty());
    assert(children.last() == SvdRegisterClusterView::Register(r));
    let none = svd_model::all_registers(children.drop_last(), base);
    assert(none.len() == 0);
    let all = svd_model::all_registers(children, base);
    reveal_with_fuel(svd_model::cluster_registers, 2);
    assert(all == none + svd_model::cluster_registers(children.last(), base));
    assert(all =~= seq![svd_model::register_model(r, base)]);
    let m = all[0];
    if let Some(fields) = r.fields {
        assert forall|i: int| 0 <= i < fields.len() implies describes_field(#[trigger] m.fields[i], fields[i], m) by {
            let f = fields[i];
            if let Some(reset) = r.reset_value {
                let own = bits::range_value(reset, f.bit_offset, f.bit_width);
                assert forall|k: u32| k < 64 implies (#[trigger] bits::bit(own, k) <==> k < f.bit_width && f.bit_offset
                    + k < 64 && bits::bit(reset, (f.bit_offset + k) as u32)) by {
                    write_laws::range_values_hold_the_bits(reset, f.bit_offset, f.bit_width, k);
                }
                assert(write_laws::held(reset, m.fields[i], own));
            }
        }
    }
}

/// The registers of a cluster are those in it, its offset added to theirs.
pub proof fn clusters_are_flattened(offset: u32, children: Seq<SvdRegisterClusterView>, base: u32)
    requires
        base + offset <= u32::MAX,
    ensures
        svd_model::all_registers(seq![SvdRegisterClusterView::Cluster(offset, children)], base)
            == svd_model::all_registers(children, (base + offset) as u32),
{
    let one = seq![SvdRegisterClusterView::Cluster(offset, children)];
    assert(one.drop_last() =~= Seq::<SvdRegisterClusterView>::empty());
    assert(one.last() == SvdRegisterClusterView::Cluster(offset, children));
    let none = svd_model::all_registers(one.drop_last(), base);
    reveal_with_fuel(svd_model::cluster_registers, 2);
    assert(none.len() == 0);
    assert(svd_model::all_registers(one, base) == none + svd_model::cluster_registers(one.last(), base));
    assert(svd_model::offset_sum(base, offset) == (base + offset) as u32);
    assert(svd_model::cluster_registers(one.last(), base) == svd_model::all_registers(
        children,
        (base + offset) as u32,
    ));
    assert(svd_model::all_registers(one, base) =~= svd_model::all_registers(children, (base + offset) as u32));
}

// ── Enumerations ─────────────────────────────────────────────────────────────

/// What may be written to a field are the values that the first enumeration which is not
/// for reads alone gives a number, in order, each with its name. Where there is none, or it
/// gives no number, nothing is said.
pub proof fn enumerations_for_writes_count(sets: Seq<SvdEnumeratedValuesView>, k: int)
    requires
        0 <= k < sets.len(),
        sets[k].usage != Some(SvdUsage::Read),
        forall|j: int| 0 <= j < k ==> (#[trigger] sets[j]).usage == Some(SvdUsage::Read),
    ensures
        ({
            let numbered = sets[k].values.filter(|v: SvdEnumeratedValueView| v.value is Some);
            match svd_model::write_enum(sets) {
                Some(allowed) => {
                    &&& numbered.len() > 0
                    &&& allowed.len() == numbered.len()
                    &&& forall|i: int|
                        0 <= i < allowed.len() ==> (#[trigger] allowed[i]).name == numbered[i].name && numbered[i].value
                            == Some(allowed[i].value)
                },
                None => numbered.len() == 0,
            }
        }),
{
    lemma_write_set(sets, k);
    lemma_listed(sets[k].values);
}

proof fn lemma_write_set(sets: Seq<SvdEnumeratedValuesView>, k: int)
    requires
        0 <= k < sets.len(),
        sets[k].usage != Some(SvdUsage::Read),
        forall|j: int| 0 <= j < k ==> (#[trigger] sets[j]).usage == Some(SvdUsage::Read),
    ensures
        svd_model::write_set(sets) == Some(sets[k]),
    decreases sets.len(),
{
    if k > 0 {
        assert(sets[0].usage == Some(SvdUsage::Read));
        let rest = sets.drop_first();
        assert forall|j: int| 0 <= j < k - 1 implies (#[trigger] rest[j]).usage == Some(SvdUsage::Read) by {
            assert(rest[j] == sets[j + 1]);
        }
        lemma_write_set(rest, k - 1);
    }
}

proof fn lemma_listed(values: Seq<SvdEnumeratedValueView>)
    ensures
        ({
            let numbered = values.filter(|v: SvdEnumeratedValueView| v.value is Some);
            let listed = svd_model::listed_values(values);
            &&& listed.len() == numbered.len()
            &&& forall|i: int|
                0 <= i < listed.len() ==> (#[trigger] listed[i]).name == numbered[i].name && numbered[i].value == Some(
                    listed[i].value,
                )
        }),
    decreases values.len(),
{
    reveal(Seq::filter);
    if values.len() > 0 {
        lemma_listed(values.drop_last());
    }
}

} // verus!
