//! What a register write is reported as, in terms of the SVD alone.
//!
//! The laws here speak of the entries of the model, of single bits and of the access, and
//! say exactly which findings and notes there are.

use vstd::prelude::*;

use crate::bits;
use crate::checker;
use crate::checker_laws;
use crate::finding::{CheckResultView, FindingKindView, FindingView, NoteView, NotedView, Severity};
use crate::fw_parse;
use crate::fw_parse::{AssignOp, RegisterAccessView, TargetView};
use crate::svd::Access;
use crate::svd_model;
use crate::svd_model::{AddressLookupView, FieldView, ModelView, PeripheralView, RegisterView};

verus! {

broadcast use crate::finding::group_outcomes;

// ── Where a write goes ───────────────────────────────────────────────────────

/// Whether `p` is the peripheral of that name: the last one that the model has.
pub open spec fn is_peripheral(model: ModelView, name: Seq<char>, p: PeripheralView) -> bool {
    exists|i: int|
        0 <= i < model.peripherals.len() && #[trigger] model.peripherals[i] == p && p.name == name && forall|j: int|
            i < j < model.peripherals.len() ==> (#[trigger] model.peripherals[j]).name != name
}

/// Whether `r` is the register of that name: the first one that the peripheral has.
pub open spec fn is_register(p: PeripheralView, name: Seq<char>, r: RegisterView) -> bool {
    exists|i: int|
        0 <= i < p.registers.len() && #[trigger] p.registers[i] == r && r.name == name && forall|j: int|
            0 <= j < i ==> (#[trigger] p.registers[j]).name != name
}

/// Whether the register at `j` of the peripheral at `i` starts at `address`.
pub open spec fn starts_at(model: ModelView, i: int, j: int, address: u64) -> bool {
    model.peripherals[i].base_address + model.peripherals[i].registers[j].address_offset == address
}

/// Whether `r`, in `p`, is the register at `address`: the first one that starts there.
pub open spec fn is_register_at(model: ModelView, address: u64, p: PeripheralView, r: RegisterView) -> bool {
    exists|i: int, j: int|
        #![trigger model.peripherals[i].registers[j]]
        0 <= i < model.peripherals.len() && 0 <= j < model.peripherals[i].registers.len() && model.peripherals[i] == p
            && model.peripherals[i].registers[j] == r && starts_at(model, i, j, address) && forall|k: int, l: int|
            #![trigger model.peripherals[k].registers[l]]
            0 <= k < model.peripherals.len() && 0 <= l < model.peripherals[k].registers.len() && (k < i || (k == i && l
                < j)) ==> !starts_at(model, k, l, address)
}

/// Whether `p` is the first peripheral with an address block that holds `address`.
pub open spec fn is_block_at(model: ModelView, address: u64, p: PeripheralView) -> bool {
    exists|i: int|
        0 <= i < model.peripherals.len() && #[trigger] model.peripherals[i] == p && holds_address(p, address)
            && forall|j: int| 0 <= j < i ==> !holds_address(#[trigger] model.peripherals[j], address)
}

/// Whether an address block of the peripheral holds `address`.
pub open spec fn holds_address(p: PeripheralView, address: u64) -> bool {
    exists|i: int|
        0 <= i < p.address_blocks.len() && p.base_address + (#[trigger] p.address_blocks[i]).offset <= address
            && address < p.base_address + p.address_blocks[i].offset + p.address_blocks[i].size
}

/// Whether a write to that target goes to the register `r` of `p`.
pub open spec fn goes_to(model: ModelView, target: TargetView, p: PeripheralView, r: RegisterView) -> bool {
    match target {
        TargetView::StructField { peripheral, register } => is_peripheral(model, peripheral, p) && is_register(
            p,
            register,
            r,
        ),
        TargetView::RegsMacro { peripheral, register: Some(register) } => is_peripheral(model, peripheral, p)
            && is_register(p, register, r),
        TargetView::Address(address) => is_register_at(model, address, p, r),
        _ => false,
    }
}

/// A name finds the last peripheral that has it, and nothing only where none has it.
pub proof fn peripherals_are_found_by_name(model: ModelView, name: Seq<char>, p: PeripheralView)
    ensures
        model.peripheral(name) == Some(p) <==> is_peripheral(model, name, p),
        model.peripheral(name) is None <==> forall|i: int|
            0 <= i < model.peripherals.len() ==> (#[trigger] model.peripherals[i]).name != name,
{
    lemma_peripheral(model.peripherals, name);
    if is_peripheral(model, name, p) {
        let i = choose|i: int|
            0 <= i < model.peripherals.len() && #[trigger] model.peripherals[i] == p && p.name == name && forall|j: int|
                i < j < model.peripherals.len() ==> (#[trigger] model.peripherals[j]).name != name;
        assert(model.peripherals[i].name == name);
        if let Some(q) = model.peripheral(name) {
            let k = choose|k: int|
                0 <= k < model.peripherals.len() && #[trigger] model.peripherals[k] == q && q.name == name && forall|
                    j: int,
                |
                    k < j < model.peripherals.len() ==> (#[trigger] model.peripherals[j]).name != name;
            assert(model.peripherals[k].name == name);
            assert(i == k);
        }
    }
}

proof fn lemma_peripheral(peripherals: Seq<PeripheralView>, name: Seq<char>)
    ensures
        match svd_model::find_peripheral(peripherals, name) {
            Some(p) => exists|i: int|
                0 <= i < peripherals.len() && #[trigger] peripherals[i] == p && p.name == name && forall|j: int|
                    i < j < peripherals.len() ==> (#[trigger] peripherals[j]).name != name,
            None => forall|i: int| 0 <= i < peripherals.len() ==> (#[trigger] peripherals[i]).name != name,
        },
    decreases peripherals.len(),
{
    if peripherals.len() > 0 {
        let n = peripherals.len() - 1;
        let rest = peripherals.drop_last();
        assert(peripherals[n] == peripherals.last());
        if peripherals.last().name != name {
            lemma_peripheral(rest, name);
            match svd_model::find_peripheral(rest, name) {
                Some(p) => {
                    let i = choose|i: int|
                        0 <= i < rest.len() && #[trigger] rest[i] == p && p.name == name && forall|j: int|
                            i < j < rest.len() ==> (#[trigger] rest[j]).name != name;
                    assert(peripherals[i] == p);
                    assert forall|j: int| i < j < peripherals.len() implies (#[trigger] peripherals[j]).name != name by {
                        if j < n {
                            assert(rest[j] == peripherals[j]);
                        }
                    }
                },
                None => {
                    assert forall|j: int| 0 <= j < peripherals.len() implies (#[trigger] peripherals[j]).name != name by {
                        if j < n {
                            assert(rest[j] == peripherals[j]);
                        }
                    }
                },
            }
        }
    }
}

/// A name finds the first register that has it, and nothing only where none has it.
pub proof fn registers_are_found_by_name(p: PeripheralView, name: Seq<char>, r: RegisterView)
    ensures
        svd_model::find_register(p.registers, name) == Some(r) <==> is_register(p, name, r),
        svd_model::find_register(p.registers, name) is None <==> forall|i: int|
            0 <= i < p.registers.len() ==> (#[trigger] p.registers[i]).name != name,
{
    lemma_register(p.registers, name);
    if is_register(p, name, r) {
        let i = choose|i: int|
            0 <= i < p.registers.len() && #[trigger] p.registers[i] == r && r.name == name && forall|j: int|
                0 <= j < i ==> (#[trigger] p.registers[j]).name != name;
        assert(p.registers[i].name == name);
        if let Some(q) = svd_model::find_register(p.registers, name) {
            let k = choose|k: int|
                0 <= k < p.registers.len() && #[trigger] p.registers[k] == q && q.name == name && forall|j: int|
                    0 <= j < k ==> (#[trigger] p.registers[j]).name != name;
            assert(p.registers[k].name == name);
            assert(i == k);
        }
    }
}

proof fn lemma_register(registers: Seq<RegisterView>, name: Seq<char>)
    ensures
        match svd_model::find_register(registers, name) {
            Some(r) => exists|i: int|
                0 <= i < registers.len() && #[trigger] registers[i] == r && r.name == name && forall|j: int|
                    0 <= j < i ==> (#[trigger] registers[j]).name != name,
            None => forall|i: int| 0 <= i < registers.len() ==> (#[trigger] registers[i]).name != name,
        },
    decreases registers.len(),
{
    if registers.len() > 0 {
        let rest = registers.drop_first();
        if registers[0].name != name {
            lemma_register(rest, name);
            match svd_model::find_register(rest, name) {
                Some(r) => {
                    let i = choose|i: int|
                        0 <= i < rest.len() && #[trigger] rest[i] == r && r.name == name && forall|j: int|
                            0 <= j < i ==> (#[trigger] rest[j]).name != name;
                    assert(registers[i + 1] == r);
                    assert forall|j: int| 0 <= j < i + 1 implies (#[trigger] registers[j]).name != name by {
                        if j > 0 {
                            assert(rest[j - 1] == registers[j]);
                        }
                    }
                },
                None => {
                    assert forall|j: int| 0 <= j < registers.len() implies (#[trigger] registers[j]).name != name by {
                        if j > 0 {
                            assert(rest[j - 1] == registers[j]);
                        }
                    }
                },
            }
        }
    }
}

/// A name finds the first field that has it, and nothing only where none has it.
pub proof fn fields_are_found_by_name(fields: Seq<FieldView>, name: Seq<char>)
    ensures
        match svd_model::find_field(fields, name) {
            Some(f) => exists|i: int|
                0 <= i < fields.len() && #[trigger] fields[i] == f && f.name == name && forall|j: int|
                    0 <= j < i ==> (#[trigger] fields[j]).name != name,
            None => forall|i: int| 0 <= i < fields.len() ==> (#[trigger] fields[i]).name != name,
        },
    decreases fields.len(),
{
    if fields.len() > 0 {
        let rest = fields.drop_first();
        if fields[0].name != name {
            fields_are_found_by_name(rest, name);
            match svd_model::find_field(rest, name) {
                Some(f) => {
                    let i = choose|i: int|
                        0 <= i < rest.len() && #[trigger] rest[i] == f && f.name == name && forall|j: int|
                            0 <= j < i ==> (#[trigger] rest[j]).name != name;
                    assert(fields[i + 1] == f);
                    assert forall|j: int| 0 <= j < i + 1 implies (#[trigger] fields[j]).name != name by {
                        if j > 0 {
                            assert(rest[j - 1] == fields[j]);
                        }
                    }
                },
                None => {
                    assert forall|j: int| 0 <= j < fields.len() implies (#[trigger] fields[j]).name != name by {
                        if j > 0 {
                            assert(rest[j - 1] == fields[j]);
                        }
                    }
                },
            }
        }
    }
}

proof fn lemma_register_at(registers: Seq<RegisterView>, base: u64, address: u64)
    ensures
        match svd_model::find_register_at(registers, base, address) {
            Some(r) => exists|i: int|
                0 <= i < registers.len() && #[trigger] registers[i] == r && base + r.address_offset == address && forall|
                    j: int,
                |
                    0 <= j < i ==> base + (#[trigger] registers[j]).address_offset != address,
            None => forall|i: int|
                0 <= i < registers.len() ==> base + (#[trigger] registers[i]).address_offset != address,
        },
    decreases registers.len(),
{
    if registers.len() > 0 {
        let rest = registers.drop_first();
        if base + registers[0].address_offset != address {
            lemma_register_at(rest, base, address);
            match svd_model::find_register_at(rest, base, address) {
                Some(r) => {
                    let i = choose|i: int|
                        0 <= i < rest.len() && #[trigger] rest[i] == r && base + r.address_offset == address && forall|
                            j: int,
                        |
                            0 <= j < i ==> base + (#[trigger] rest[j]).address_offset != address;
                    assert(registers[i + 1] == r);
                    assert forall|j: int| 0 <= j < i + 1 implies base + (#[trigger] registers[j]).address_offset
                        != address by {
                        if j > 0 {
                            assert(rest[j - 1] == registers[j]);
                        }
                    }
                },
                None => {
                    assert forall|j: int| 0 <= j < registers.len() implies base + (
                    #[trigger] registers[j]).address_offset != address by {
                        if j > 0 {
                            assert(rest[j - 1] == registers[j]);
                        }
                    }
                },
            }
        }
    }
}

/// Whether no register of the model starts at `address`.
pub open spec fn no_register_at(model: ModelView, address: u64) -> bool {
    forall|i: int, j: int|
        #![trigger model.peripherals[i].registers[j]]
        0 <= i < model.peripherals.len() && 0 <= j < model.peripherals[i].registers.len() ==> !starts_at(
            model,
            i,
            j,
            address,
        )
}

proof fn lemma_at(model: ModelView, address: u64)
    ensures
        match svd_model::find_at(model.peripherals, address) {
            Some((p, r)) => is_register_at(model, address, p, r),
            None => no_register_at(model, address),
        },
    decreases model.peripherals.len(),
{
    let all = model.peripherals;
    if all.len() > 0 {
        let first = all[0];
        let rest = ModelView { peripherals: all.drop_first() };
        lemma_register_at(first.registers, first.base_address, address);
        match svd_model::find_register_at(first.registers, first.base_address, address) {
            Some(r) => {
                let j = choose|j: int|
                    0 <= j < first.registers.len() && #[trigger] first.registers[j] == r && first.base_address
                        + r.address_offset == address && forall|l: int|
                        0 <= l < j ==> first.base_address + (#[trigger] first.registers[l]).address_offset != address;
                assert(all[0].registers[j] == r);
                assert(starts_at(model, 0, j, address));
                assert forall|k: int, l: int|
                    #![trigger model.peripherals[k].registers[l]]
                    0 <= k < all.len() && 0 <= l < all[k].registers.len() && (k < 0 || (k == 0 && l
                        < j)) implies !starts_at(model, k, l, address) by {
                    assert(first.registers[l] == all[k].registers[l]);
                }
            },
            None => {
                lemma_at(rest, address);
                match svd_model::find_at(rest.peripherals, address) {
                    Some((p, r)) => {
                        let (i, j) = choose|i: int, j: int|
                            #![trigger rest.peripherals[i].registers[j]]
                            0 <= i < rest.peripherals.len() && 0 <= j < rest.peripherals[i].registers.len()
                                && rest.peripherals[i] == p && rest.peripherals[i].registers[j] == r && starts_at(
                                rest,
                                i,
                                j,
                                address,
                            ) && forall|k: int, l: int|
                                #![trigger rest.peripherals[k].registers[l]]
                                0 <= k < rest.peripherals.len() && 0 <= l < rest.peripherals[k].registers.len() && (k < i
                                    || (k == i && l < j)) ==> !starts_at(rest, k, l, address);
                        assert(all[i + 1].registers[j] == r);
                        assert(starts_at(model, i + 1, j, address));
                        assert forall|k: int, l: int|
                            #![trigger model.peripherals[k].registers[l]]
                            0 <= k < all.len() && 0 <= l < all[k].registers.len() && (k < i + 1 || (k == i + 1 && l
                                < j)) implies !starts_at(model, k, l, address) by {
                            if k > 0 {
                                assert(rest.peripherals[k - 1].registers[l] == all[k].registers[l]);
                                assert(!starts_at(rest, k - 1, l, address));
                            } else {
                                assert(first.registers[l] == all[k].registers[l]);
                            }
                        }
                    },
                    None => {
                        assert forall|k: int, l: int|
                            #![trigger model.peripherals[k].registers[l]]
                            0 <= k < all.len() && 0 <= l < all[k].registers.len() implies !starts_at(
                            model,
                            k,
                            l,
                            address,
                        ) by {
                            if k > 0 {
                                assert(rest.peripherals[k - 1].registers[l] == all[k].registers[l]);
                                assert(!starts_at(rest, k - 1, l, address));
                            } else {
                                assert(first.registers[l] == all[k].registers[l]);
                            }
                        }
                    },
                }
            },
        }
    }
}

proof fn lemma_holds_address(p: PeripheralView, address: u64)
    ensures
        p.covers(address) <==> holds_address(p, address),
{
    if p.covers(address) {
        let i = choose|i: int|
            0 <= i < p.address_blocks.len() && (#[trigger] p.address_blocks[i]).covers(p.base_address, address);
        assert(p.base_address + p.address_blocks[i].offset <= address);
    }
    if holds_address(p, address) {
        let i = choose|i: int|
            0 <= i < p.address_blocks.len() && p.base_address + (#[trigger] p.address_blocks[i]).offset <= address
                && address < p.base_address + p.address_blocks[i].offset + p.address_blocks[i].size;
        assert(p.address_blocks[i].covers(p.base_address, address));
    }
}

proof fn lemma_block(peripherals: Seq<PeripheralView>, address: u64)
    ensures
        match svd_model::find_covering(peripherals, address) {
            Some(p) => exists|i: int|
                0 <= i < peripherals.len() && #[trigger] peripherals[i] == p && holds_address(p, address) && forall|
                    j: int,
                |
                    0 <= j < i ==> !holds_address(#[trigger] peripherals[j], address),
            None => forall|i: int| 0 <= i < peripherals.len() ==> !holds_address(#[trigger] peripherals[i], address),
        },
    decreases peripherals.len(),
{
    if peripherals.len() > 0 {
        let rest = peripherals.drop_first();
        lemma_holds_address(peripherals[0], address);
        if !peripherals[0].covers(address) {
            lemma_block(rest, address);
            match svd_model::find_covering(rest, address) {
                Some(p) => {
                    let i = choose|i: int|
                        0 <= i < rest.len() && #[trigger] rest[i] == p && holds_address(p, address) && forall|j: int|
                            0 <= j < i ==> !holds_address(#[trigger] rest[j], address);
                    assert(peripherals[i + 1] == p);
                    assert forall|j: int| 0 <= j < i + 1 implies !holds_address(#[trigger] peripherals[j], address) by {
                        if j > 0 {
                            assert(rest[j - 1] == peripherals[j]);
                        }
                    }
                },
                None => {
                    assert forall|j: int| 0 <= j < peripherals.len() implies !holds_address(
                        #[trigger] peripherals[j],
                        address,
                    ) by {
                        if j > 0 {
                            assert(rest[j - 1] == peripherals[j]);
                        }
                    }
                },
            }
        }
    }
}

/// An address is that of the first register that starts there; where none does, it lies
/// in the first peripheral with a block that holds it; and else nowhere.
pub proof fn addresses_are_resolved_by_the_map(model: ModelView, address: u64)
    ensures
        match model.resolve_address(address) {
            AddressLookupView::Register(p, r) => is_register_at(model, address, p, r),
            AddressLookupView::WithinPeripheral(p) => no_register_at(model, address) && is_block_at(model, address, p),
            AddressLookupView::Unmapped => no_register_at(model, address) && forall|i: int|
                0 <= i < model.peripherals.len() ==> !holds_address(#[trigger] model.peripherals[i], address),
        },
{
    lemma_at(model, address);
    lemma_block(model.peripherals, address);
}

proof fn lemma_one_register_at(
    model: ModelView,
    address: u64,
    p: PeripheralView,
    r: RegisterView,
)
    requires
        is_register_at(model, address, p, r),
    ensures
        model.resolve_address(address) == AddressLookupView::Register(p, r),
{
    lemma_at(model, address);
    let (i, j) = choose|i: int, j: int|
        #![trigger model.peripherals[i].registers[j]]
        0 <= i < model.peripherals.len() && 0 <= j < model.peripherals[i].registers.len() && model.peripherals[i] == p
            && model.peripherals[i].registers[j] == r && starts_at(model, i, j, address) && forall|k: int, l: int|
            #![trigger model.peripherals[k].registers[l]]
            0 <= k < model.peripherals.len() && 0 <= l < model.peripherals[k].registers.len() && (k < i || (k == i && l
                < j)) ==> !starts_at(model, k, l, address);
    assert(model.peripherals[i].registers[j] == r);
    if let Some((q, s)) = svd_model::find_at(model.peripherals, address) {
        let (k, l) = choose|k: int, l: int|
            #![trigger model.peripherals[k].registers[l]]
            0 <= k < model.peripherals.len() && 0 <= l < model.peripherals[k].registers.len() && model.peripherals[k]
                == q && model.peripherals[k].registers[l] == s && starts_at(model, k, l, address) && forall|
                m: int,
                n: int,
            |
                #![trigger model.peripherals[m].registers[n]]
                0 <= m < model.peripherals.len() && 0 <= n < model.peripherals[m].registers.len() && (m < k || (m == k
                    && n < l)) ==> !starts_at(model, m, n, address);
        assert(model.peripherals[k].registers[l] == s);
        assert(k == i && l == j);
    }
}

// ── What is said of a write ──────────────────────────────────────────────────

/// How an operator is written.
pub open spec fn written(op: AssignOp) -> Seq<char> {
    match op {
        AssignOp::Assign => "="@,
        AssignOp::OrAssign => "|"@ + "="@,
        AssignOp::AndAssign => "&"@ + "="@,
        AssignOp::XorAssign => "^"@ + "="@,
        AssignOp::AddAssign => "+"@ + "="@,
        AssignOp::SubAssign => "-"@ + "="@,
        AssignOp::MulAssign => "*"@ + "="@,
        AssignOp::DivAssign => "/"@ + "="@,
        AssignOp::ModAssign => "%"@ + "="@,
        AssignOp::ShlAssign => "<"@ + "<"@ + "="@,
        AssignOp::ShrAssign => ">"@ + ">"@ + "="@,
    }
}

/// A finding at the place of an access, with its expression.
pub open spec fn about(access: RegisterAccessView, kind: FindingKindView, severity: Severity) -> FindingView {
    FindingView {
        kind,
        severity,
        file: access.file,
        line: access.line,
        raw_lhs: access.raw_lhs,
        raw_op: written(access.op),
        raw_rhs: access.raw_rhs,
    }
}

/// The value whose bits are judged: a constant that `=` or `|=` writes.
pub open spec fn judged(access: RegisterAccessView) -> Option<u64> {
    if access.op == AssignOp::Assign || access.op == AssignOp::OrAssign {
        access.value
    } else {
        None
    }
}

/// Whether bit `i` belongs to the field.
pub open spec fn in_field(f: FieldView, i: u32) -> bool {
    f.bit_offset <= i < f.bit_offset + f.bit_width
}

/// Whether `v` has a one in the field.
pub open spec fn touches(v: u64, f: FieldView) -> bool {
    exists|i: u32| #[trigger] bits::bit(v, i) && in_field(f, i)
}

/// Whether `n` is the number that the bits of the field hold in `v`.
pub open spec fn held(v: u64, f: FieldView, n: u64) -> bool {
    forall|i: u32|
        i < 64 ==> (#[trigger] bits::bit(n, i) <==> i < f.bit_width && f.bit_offset + i < 64 && bits::bit(
            v,
            (f.bit_offset + i) as u32,
        ))
}

/// Whether the write fixes all the bits of the field: `=` does, and `|=` does where it has
/// a one in each of them.
pub open spec fn fixes(access: RegisterAccessView, v: u64, f: FieldView) -> bool {
    access.op == AssignOp::Assign || forall|i: u32| i < 64 && #[trigger] in_field(f, i) ==> bits::bit(v, i)
}

/// Whether the mask has a one in each bit of a field, and nowhere else.
pub open spec fn is_mask_of(fields: Seq<FieldView>, mask: u64) -> bool {
    forall|i: u32|
        i < 64 ==> (#[trigger] bits::bit(mask, i) <==> exists|k: int|
            0 <= k < fields.len() && in_field(#[trigger] fields[k], i))
}

/// Whether the SVD gives reason for a finding about a write to the register `r`.
pub open spec fn justified(
    peripheral: Seq<char>,
    r: RegisterView,
    access: RegisterAccessView,
    kind: FindingKindView,
    severity: Severity,
) -> bool {
    match kind {
        // The register is read-only.
        FindingKindView::WriteToReadOnlyRegister { peripheral: p, register } => {
            &&& p == peripheral && register == r.name && severity == Severity::Error
            &&& r.access == Access::ReadOnly
        },
        // The value has a one past the width of the register.
        FindingKindView::ValueExceedsRegisterWidth { peripheral: p, register, value, size_bits } => {
            &&& p == peripheral && register == r.name && severity == Severity::Error
            &&& judged(access) == Some(value)
            &&& size_bits == r.size_bits
            &&& exists|i: u32| size_bits <= i && #[trigger] bits::bit(value, i)
        },
        // The value has a one in no field, and the mask has one in each bit of a field.
        FindingKindView::ValueSetsUndefinedBits { peripheral: p, register, value, defined_mask } => {
            &&& p == peripheral && register == r.name && severity == Severity::Warning
            &&& judged(access) == Some(value)
            &&& r.fields.len() > 0
            &&& exists|i: u32| #[trigger] bits::bit(value, i) && checker_laws::in_no_field(r.fields, i)
            &&& is_mask_of(r.fields, defined_mask)
        },
        // None of the entries of the field's enumeration is the number that it holds.
        FindingKindView::FieldValueNotInEnum { peripheral: p, register, field, value, allowed } => {
            &&& p == peripheral && register == r.name && severity == Severity::Error
            &&& judged(access) matches Some(v) && exists|k: int|
                0 <= k < r.fields.len() && (#[trigger] r.fields[k]).name == field && r.fields[k].allowed_values == Some(
                    allowed,
                ) && fixes(access, v, r.fields[k]) && held(v, r.fields[k], value)
            &&& forall|i: int| 0 <= i < allowed.len() ==> (#[trigger] allowed[i]).value != value
        },
        // The value has a one in a field that is read-only.
        FindingKindView::WriteToReadOnlyField { peripheral: p, register, field } => {
            &&& p == peripheral && register == r.name && severity == Severity::Warning
            &&& judged(access) matches Some(v) && exists|k: int|
                0 <= k < r.fields.len() && (#[trigger] r.fields[k]).name == field && r.fields[k].access
                    == Access::ReadOnly && touches(v, r.fields[k])
        },
        _ => false,
    }
}

/// Whether there is reason for a note about a write to the register `r`.
pub open spec fn noteworthy(
    peripheral: Seq<char>,
    r: RegisterView,
    access: RegisterAccessView,
    note: NoteView,
) -> bool {
    match note {
        NoteView::ValueNotStaticallyKnown { peripheral: p, register } => p == peripheral && register == r.name
            && access.value is None,
        NoteView::ValueNotDeterminableForOp { peripheral: p, register } => p == peripheral && register == r.name
            && access.value is Some && access.op != AssignOp::Assign && access.op != AssignOp::OrAssign,
        NoteView::RegisterHasNoFields { peripheral: p, register } => p == peripheral && register == r.name && judged(
            access,
        ) is Some && r.fields.len() == 0,
        NoteView::FieldUnverifiableNoEnum { peripheral: p, register, field } => p == peripheral && register == r.name
            && (judged(access) matches Some(v) && exists|k: int|
            0 <= k < r.fields.len() && (#[trigger] r.fields[k]).name == field && r.fields[k].allowed_values is None
                && fixes(access, v, r.fields[k])),
        _ => false,
    }
}

proof fn lemma_written(op: AssignOp)
    ensures
        checker::op_spelling(op) == written(op),
{
    reveal_strlit("=");
    reveal_strlit("|");
    reveal_strlit("&");
    reveal_strlit("^");
    reveal_strlit("+");
    reveal_strlit("-");
    reveal_strlit("*");
    reveal_strlit("/");
    reveal_strlit("%");
    reveal_strlit("<");
    reveal_strlit(">");
    reveal_strlit("|=");
    reveal_strlit("&=");
    reveal_strlit("^=");
    reveal_strlit("+=");
    reveal_strlit("-=");
    reveal_strlit("*=");
    reveal_strlit("/=");
    reveal_strlit("%=");
    reveal_strlit("<<=");
    reveal_strlit(">>=");
    assert(checker::op_spelling(op) =~= written(op));
}

/// An assignment is read as the operator that it is written with.
pub proof fn operators_are_read_as_written(op: AssignOp, s: Seq<char>)
    ensures
        fw_parse::assign_op(s) == Some(op) <==> s == written(op),
{
    checker_laws::operators_read_back(op, s);
    lemma_written(op);
}

/// Two numbers with the same bits are the same.
pub proof fn bits_make_the_number(a: u64, b: u64)
    requires
        forall|i: u32| i < 64 ==> (#[trigger] bits::bit(a, i) <==> bits::bit(b, i)),
    ensures
        a == b,
{
    bits::outside_mask_iff_bit(a, b);
    bits::outside_mask_iff_bit(b, a);
    assert(a & !b == 0 && b & !a == 0 ==> a == b) by (bit_vector);
}

/// The number in a bit range has the bits of that range, and no others.
pub proof fn range_values_hold_the_bits(v: u64, offset: u32, width: u32, i: u32)
    requires
        i < 64,
    ensures
        bits::bit(bits::range_value(v, offset, width), i) <==> i < width && offset + i < 64 && bits::bit(
            v,
            (offset + i) as u32,
        ),
{
    if offset >= 64 {
        assert(i < 64 ==> (0u64 >> i) & 1 != 1) by (bit_vector);
    } else if width >= 64 {
        assert(i < 64 && offset < 64 ==> ((((v >> offset) & 0xffff_ffff_ffff_ffffu64) >> i) & 1 == 1 <==> offset + i < 64
            && (v >> ((offset + i) as u32)) & 1 == 1)) by (bit_vector);
    } else {
        assert(i < 64 && offset < 64 && width < 64 ==> ((((v >> offset) & (((1u64 << width) - 1) as u64)) >> i) & 1 == 1
            <==> i < width && offset + i < 64 && (v >> ((offset + i) as u32)) & 1 == 1)) by (bit_vector);
    }
}

proof fn lemma_held(v: u64, f: FieldView, n: u64)
    ensures
        held(v, f, n) <==> n == bits::range_value(v, f.bit_offset, f.bit_width),
{
    let m = bits::range_value(v, f.bit_offset, f.bit_width);
    assert forall|i: u32| i < 64 implies (#[trigger] bits::bit(m, i) <==> i < f.bit_width && f.bit_offset + i < 64
        && bits::bit(v, (f.bit_offset + i) as u32)) by {
        range_values_hold_the_bits(v, f.bit_offset, f.bit_width, i);
    }
    if held(v, f, n) {
        assert forall|i: u32| i < 64 implies (#[trigger] bits::bit(n, i) <==> bits::bit(m, i)) by {}
        bits_make_the_number(n, m);
    }
}

proof fn lemma_touches(v: u64, f: FieldView)
    ensures
        v & checker::mask_of(f) != 0 <==> touches(v, f),
{
    let m = checker::mask_of(f);
    bits::outside_mask_iff_bit(v, !m);
    assert(v & !(!m) == v & m) by (bit_vector);
    assert forall|i: u32| #[trigger] bits::bit(v, i) implies (!bits::bit(!m, i) <==> in_field(f, i)) by {
        bits::range_mask_bits(f.bit_offset, f.bit_width, i);
        assert(i < 64 ==> (((!m) >> i) & 1 == 1 <==> (m >> i) & 1 != 1)) by (bit_vector);
    }
}

proof fn lemma_fixes(access: RegisterAccessView, v: u64, f: FieldView)
    ensures
        checker::field_value_known(f, access.op, v) <==> fixes(access, v, f),
{
    let m = checker::mask_of(f);
    bits::outside_mask_iff_bit(m, v);
    assert(m & !v == 0 <==> v & m == m) by (bit_vector);
    assert forall|i: u32| i < 64 implies (#[trigger] bits::bit(m, i) <==> in_field(f, i)) by {
        bits::range_mask_bits(f.bit_offset, f.bit_width, i);
    }
    if forall|i: u32| i < 64 && #[trigger] in_field(f, i) ==> bits::bit(v, i) {
        assert forall|i: u32| #[trigger] bits::bit(m, i) implies bits::bit(v, i) by {
            assert(in_field(f, i));
        }
    }
    if v & m == m {
        assert forall|i: u32| i < 64 && #[trigger] in_field(f, i) implies bits::bit(v, i) by {
            assert(bits::bit(m, i));
        }
    }
}

/// A value fits in so many bits exactly if it has no one past them.
pub proof fn values_fit_without_higher_bits(v: u64, width: u32)
    ensures
        checker::fits(v, width) <==> forall|i: u32| width <= i ==> !#[trigger] bits::bit(v, i),
{
    if width < 64 {
        let m = bits::range_mask(0, width);
        bits::outside_mask_iff_bit(v, m);
        assert forall|i: u32| i < 64 implies (#[trigger] bits::bit(m, i) <==> i < width) by {
            bits::range_mask_bits(0, width, i);
        }
        assert(width < 64 ==> (v < (1u64 << width) <==> v & !((((1u64 << width) - 1) as u64) << 0u32) == 0)) by (bit_vector);
        assert(m == (((1u64 << width) - 1) as u64) << 0u32);
        if !checker::fits(v, width) {
            let i = choose|i: u32| #[trigger] bits::bit(v, i) && !bits::bit(m, i);
            assert(width <= i && bits::bit(v, i));
        } else {
            assert forall|i: u32| width <= i implies !#[trigger] bits::bit(v, i) by {
                if bits::bit(v, i) {
                    assert(bits::bit(m, i));
                }
            }
        }
    }
}

/// Whether one field gives reason for a finding.
pub open spec fn field_reason(
    peripheral: Seq<char>,
    register: Seq<char>,
    f: FieldView,
    access: RegisterAccessView,
    v: u64,
    kind: FindingKindView,
    severity: Severity,
) -> bool {
    match kind {
        FindingKindView::FieldValueNotInEnum { peripheral: p, register: r, field, value, allowed } => {
            &&& p == peripheral && r == register && severity == Severity::Error
            &&& f.name == field && f.allowed_values == Some(allowed) && fixes(access, v, f) && held(v, f, value)
            &&& forall|i: int| 0 <= i < allowed.len() ==> (#[trigger] allowed[i]).value != value
        },
        FindingKindView::WriteToReadOnlyField { peripheral: p, register: r, field } => {
            &&& p == peripheral && r == register && severity == Severity::Warning
            &&& f.name == field && f.access == Access::ReadOnly
            &&& touches(v, f)
        },
        _ => false,
    }
}

proof fn lemma_found_contains(access: RegisterAccessView, kind: FindingKindView, x: FindingView)
    ensures
        checker::found(access, kind).findings.contains(x) <==> x == about(access, kind, kind.severity()),
        checker::found(access, kind).notes.len() == 0,
{
    lemma_written(access.op);
    let found = checker::found(access, kind).findings;
    assert(found[0] == about(access, kind, kind.severity()));
    if found.contains(x) {
        let i = found.index_of(x);
        assert(found[i] == x);
    }
}

proof fn lemma_both_contain(a: CheckResultView, b: CheckResultView, x: FindingView, n: NotedView)
    ensures
        a.then_also(b).findings.contains(x) <==> a.findings.contains(x) || b.findings.contains(x),
        a.then_also(b).notes.contains(n) <==> a.notes.contains(n) || b.notes.contains(n),
{
    crate::fw_parse_laws::lemma_concat_contains(a.findings, b.findings, x);
    crate::fw_parse_laws::lemma_concat_contains(a.notes, b.notes, n);
}

proof fn lemma_remarked_contains(access: RegisterAccessView, note: NoteView, n: NotedView)
    ensures
        checker::remarked(access, note).notes.contains(n) <==> n == (NotedView {
            note,
            file: access.file,
            line: access.line,
        }),
        checker::remarked(access, note).findings.len() == 0,
{
    let noted = checker::remarked(access, note).notes;
    assert(noted[0] == (NotedView { note, file: access.file, line: access.line }));
    if noted.contains(n) {
        let i = noted.index_of(n);
        assert(noted[i] == n);
    }
}

proof fn lemma_field_said(
    peripheral: Seq<char>,
    register: Seq<char>,
    f: FieldView,
    access: RegisterAccessView,
    v: u64,
    x: FindingView,
    n: NotedView,
)
    ensures
        checker::field_outcome(peripheral, register, f, access, v).findings.contains(x) <==> x == about(
            access,
            x.kind,
            x.severity,
        ) && field_reason(peripheral, register, f, access, v, x.kind, x.severity),
        checker::field_outcome(peripheral, register, f, access, v).notes.contains(n) <==> f.allowed_values is None
            && fixes(access, v, f) && n == (NotedView {
            note: NoteView::FieldUnverifiableNoEnum { peripheral, register, field: f.name },
            file: access.file,
            line: access.line,
        }),
{
    let a = checker::read_only_outcome(peripheral, register, f, access, v);
    let b = checker::membership_outcome(peripheral, register, f, access, v);
    lemma_both_contain(a, b, x, n);
    lemma_touches(v, f);
    lemma_fixes(access, v, f);
    let m = bits::range_value(v, f.bit_offset, f.bit_width);
    lemma_held(v, f, m);
    let read_only = FindingKindView::WriteToReadOnlyField { peripheral, register, field: f.name };
    lemma_found_contains(access, read_only, x);
    if let Some(allowed) = f.allowed_values {
        let kind = FindingKindView::FieldValueNotInEnum { peripheral, register, field: f.name, value: m, allowed };
        lemma_found_contains(access, kind, x);
        if let FindingKindView::FieldValueNotInEnum { value, .. } = x.kind {
            lemma_held(v, f, value);
        }
        if !(forall|i: int| 0 <= i < allowed.len() ==> (#[trigger] allowed[i]).value != m) {
            assert(checker::lists(allowed, m));
        }
    }
    lemma_remarked_contains(access, NoteView::FieldUnverifiableNoEnum { peripheral, register, field: f.name }, n);
}

proof fn lemma_fields_said(
    peripheral: Seq<char>,
    register: Seq<char>,
    fields: Seq<FieldView>,
    access: RegisterAccessView,
    v: u64,
    x: FindingView,
    n: NotedView,
)
    ensures
        checker::fields_outcome(peripheral, register, fields, access, v).findings.contains(x) <==> x == about(
            access,
            x.kind,
            x.severity,
        ) && exists|k: int|
            0 <= k < fields.len() && field_reason(
                peripheral,
                register,
                #[trigger] fields[k],
                access,
                v,
                x.kind,
                x.severity,
            ),
        checker::fields_outcome(peripheral, register, fields, access, v).notes.contains(n) <==> exists|k: int|
            0 <= k < fields.len() && (#[trigger] fields[k]).allowed_values is None && fixes(access, v, fields[k]) && n
                == (NotedView {
                note: NoteView::FieldUnverifiableNoEnum { peripheral, register, field: fields[k].name },
                file: access.file,
                line: access.line,
            }),
    decreases fields.len(),
{
    if fields.len() > 0 {
        let rest = fields.drop_last();
        let last = fields.last();
        lemma_fields_said(peripheral, register, rest, access, v, x, n);
        lemma_field_said(peripheral, register, last, access, v, x, n);
        lemma_both_contain(
            checker::fields_outcome(peripheral, register, rest, access, v),
            checker::field_outcome(peripheral, register, last, access, v),
            x,
            n,
        );
        assert(fields[fields.len() - 1] == last);
        assert forall|k: int| 0 <= k < rest.len() implies #[trigger] fields[k] == rest[k] by {}
        if checker::fields_outcome(peripheral, register, rest, access, v).findings.contains(x) {
            let k = choose|k: int|
                0 <= k < rest.len() && field_reason(
                    peripheral,
                    register,
                    #[trigger] rest[k],
                    access,
                    v,
                    x.kind,
                    x.severity,
                );
            assert(fields[k] == rest[k]);
        }
        if checker::fields_outcome(peripheral, register, rest, access, v).notes.contains(n) {
            let k = choose|k: int|
                0 <= k < rest.len() && (#[trigger] rest[k]).allowed_values is None && fixes(access, v, rest[k]) && n == (
                NotedView {
                    note: NoteView::FieldUnverifiableNoEnum { peripheral, register, field: rest[k].name },
                    file: access.file,
                    line: access.line,
                });
            assert(fields[k] == rest[k]);
        }
    }
}

proof fn lemma_mask_is_of_fields(fields: Seq<FieldView>, mask: u64)
    ensures
        mask == checker::defined_mask(fields) <==> is_mask_of(fields, mask),
{
    let all = checker::defined_mask(fields);
    assert forall|i: u32| i < 64 implies (#[trigger] bits::bit(all, i) <==> exists|k: int|
        0 <= k < fields.len() && in_field(#[trigger] fields[k], i)) by {
        checker_laws::lemma_mask_bit(fields, i);
        if !checker_laws::in_no_field(fields, i) {
            let k = choose|k: int|
                0 <= k < fields.len() && (#[trigger] fields[k]).bit_offset <= i < fields[k].bit_offset
                    + fields[k].bit_width;
            assert(in_field(fields[k], i));
        }
    }
    if is_mask_of(fields, mask) {
        assert forall|i: u32| i < 64 implies (#[trigger] bits::bit(mask, i) <==> bits::bit(all, i)) by {
            assert(bits::bit(all, i) <==> exists|k: int| 0 <= k < fields.len() && in_field(#[trigger] fields[k], i));
        }
        bits_make_the_number(mask, all);
    }
}

proof fn lemma_value_parts(
    peripheral: Seq<char>,
    r: RegisterView,
    access: RegisterAccessView,
    v: u64,
    x: FindingView,
    n: NotedView,
)
    ensures
        ({
            let all = checker::value_outcome(peripheral, r, access, v);
            let width_kind = FindingKindView::ValueExceedsRegisterWidth {
                peripheral,
                register: r.name,
                value: v,
                size_bits: r.size_bits,
            };
            let mask_kind = FindingKindView::ValueSetsUndefinedBits {
                peripheral,
                register: r.name,
                value: v,
                defined_mask: checker::defined_mask(r.fields),
            };
            let wide = !checker::fits(v, r.size_bits) && x == about(access, width_kind, Severity::Error);
            let undefined = v & !checker::defined_mask(r.fields) != 0 && x == about(access, mask_kind, Severity::Warning);
            let fields = checker::fields_outcome(peripheral, r.name, r.fields, access, v);
            let empty = NotedView {
                note: NoteView::RegisterHasNoFields { peripheral, register: r.name },
                file: access.file,
                line: access.line,
            };
            &&& r.fields.len() == 0 ==> (all.findings.contains(x) <==> wide) && (all.notes.contains(n) <==> n == empty)
            &&& r.fields.len() > 0 ==> (all.findings.contains(x) <==> wide || undefined || fields.findings.contains(x))
                && (all.notes.contains(n) <==> fields.notes.contains(n))
        }),
{
    let width_kind = FindingKindView::ValueExceedsRegisterWidth {
        peripheral,
        register: r.name,
        value: v,
        size_bits: r.size_bits,
    };
    lemma_found_contains(access, width_kind, x);
    let width = if checker::fits(v, r.size_bits) {
        CheckResultView::nothing()
    } else {
        checker::found(access, width_kind)
    };
    assert(!CheckResultView::nothing().findings.contains(x));
    assert(!CheckResultView::nothing().notes.contains(n));
    let empty_note = NoteView::RegisterHasNoFields { peripheral, register: r.name };
    let mask = checker::defined_mask(r.fields);
    let mask_kind = FindingKindView::ValueSetsUndefinedBits {
        peripheral,
        register: r.name,
        value: v,
        defined_mask: mask,
    };
    lemma_found_contains(access, mask_kind, x);
    let undefined = if v & !mask == 0 {
        CheckResultView::nothing()
    } else {
        checker::found(access, mask_kind)
    };
    let fields = checker::fields_outcome(peripheral, r.name, r.fields, access, v);
    let all = checker::value_outcome(peripheral, r, access, v);
    if r.fields.len() > 0 {
        assert(all == width.then_also(undefined).then_also(fields));
        lemma_both_contain(width, undefined, x, n);
        lemma_both_contain(width.then_also(undefined), fields, x, n);
    } else {
        lemma_remarked_contains(access, empty_note, n);
        assert(all == width.then_also(checker::remarked(access, empty_note)));
        lemma_both_contain(width, checker::remarked(access, empty_note), x, n);
    }
}

proof fn lemma_value_said(
    peripheral: Seq<char>,
    r: RegisterView,
    access: RegisterAccessView,
    v: u64,
    x: FindingView,
    n: NotedView,
)
    requires
        judged(access) == Some(v),
    ensures
        checker::value_outcome(peripheral, r, access, v).findings.contains(x) <==> x == about(
            access,
            x.kind,
            x.severity,
        ) && !(x.kind is WriteToReadOnlyRegister) && justified(peripheral, r, access, x.kind, x.severity),
        checker::value_outcome(peripheral, r, access, v).notes.contains(n) <==> n == (NotedView {
            note: n.note,
            file: access.file,
            line: access.line,
        }) && noteworthy(peripheral, r, access, n.note),
{
    lemma_value_parts(peripheral, r, access, v, x, n);
    lemma_fields_said(peripheral, r.name, r.fields, access, v, x, n);
    values_fit_without_higher_bits(v, r.size_bits);
    checker_laws::undefined_bits_iff_outside_all_fields(v, r.fields);
    lemma_mask_is_of_fields(r.fields, checker::defined_mask(r.fields));
    if checker::fields_outcome(peripheral, r.name, r.fields, access, v).findings.contains(x) {
        let k = choose|k: int|
            0 <= k < r.fields.len() && field_reason(
                peripheral,
                r.name,
                #[trigger] r.fields[k],
                access,
                v,
                x.kind,
                x.severity,
            );
        let f = r.fields[k];
        match x.kind {
            FindingKindView::FieldValueNotInEnum { field, value, allowed, .. } => {
                assert(f.name == field && f.allowed_values == Some(allowed) && fixes(access, v, f) && held(v, f, value));
                assert(justified(peripheral, r, access, x.kind, x.severity));
            },
            FindingKindView::WriteToReadOnlyField { field, .. } => {
                assert(touches(v, r.fields[k]));
                assert(justified(peripheral, r, access, x.kind, x.severity));
            },
            _ => {},
        }
    }
    match x.kind {
        FindingKindView::ValueSetsUndefinedBits { defined_mask, .. } => {
            lemma_mask_is_of_fields(r.fields, defined_mask);
        },
        FindingKindView::FieldValueNotInEnum { field, value, allowed, .. } => {
            if justified(peripheral, r, access, x.kind, x.severity) {
                let k = choose|k: int|
                    0 <= k < r.fields.len() && (#[trigger] r.fields[k]).name == field && r.fields[k].allowed_values
                        == Some(allowed) && fixes(access, v, r.fields[k]) && held(v, r.fields[k], value);
                assert(field_reason(peripheral, r.name, r.fields[k], access, v, x.kind, x.severity));
            }
        },
        FindingKindView::WriteToReadOnlyField { field, .. } => {
            if justified(peripheral, r, access, x.kind, x.severity) {
                let k = choose|k: int|
                    0 <= k < r.fields.len() && (#[trigger] r.fields[k]).name == field && r.fields[k].access
                        == Access::ReadOnly && touches(v, r.fields[k]);
                assert(field_reason(peripheral, r.name, r.fields[k], access, v, x.kind, x.severity));
            }
        },
        FindingKindView::ValueExceedsRegisterWidth { value, .. } => {
            if justified(peripheral, r, access, x.kind, x.severity) {
                let i = choose|i: u32| r.size_bits <= i && #[trigger] bits::bit(value, i);
                assert(!checker::fits(v, r.size_bits));
            }
        },
        _ => {},
    }
}

proof fn lemma_register_said(
    peripheral: Seq<char>,
    r: RegisterView,
    access: RegisterAccessView,
    x: FindingView,
    n: NotedView,
)
    ensures
        checker::register_outcome(peripheral, r, access).findings.contains(x) <==> x == about(
            access,
            x.kind,
            x.severity,
        ) && justified(peripheral, r, access, x.kind, x.severity),
        checker::register_outcome(peripheral, r, access).notes.contains(n) <==> n == (NotedView {
            note: n.note,
            file: access.file,
            line: access.line,
        }) && noteworthy(peripheral, r, access, n.note),
{
    let kind = FindingKindView::WriteToReadOnlyRegister { peripheral, register: r.name };
    lemma_found_contains(access, kind, x);
    let first = if r.access == Access::ReadOnly {
        checker::found(access, kind)
    } else {
        CheckResultView::nothing()
    };
    match access.value {
        None => {
            let note = NoteView::ValueNotStaticallyKnown { peripheral, register: r.name };
            lemma_remarked_contains(access, note, n);
            lemma_both_contain(first, checker::remarked(access, note), x, n);
        },
        Some(v) => {
            if access.op == AssignOp::Assign || access.op == AssignOp::OrAssign {
                lemma_value_said(peripheral, r, access, v, x, n);
                lemma_both_contain(first, checker::value_outcome(peripheral, r, access, v), x, n);
            } else {
                let note = NoteView::ValueNotDeterminableForOp { peripheral, register: r.name };
                lemma_remarked_contains(access, note, n);
                lemma_both_contain(first, checker::remarked(access, note), x, n);
            }
        },
    }
}

/// A check of one access looks at that access.
proof fn lemma_one_access(model: ModelView, access: RegisterAccessView)
    ensures
        checker::accesses_outcome(model, seq![access]) == checker::access_outcome(model, access),
{
    assert(seq![access].drop_last() =~= Seq::<RegisterAccessView>::empty());
    assert(checker::accesses_outcome(model, Seq::<RegisterAccessView>::empty()) == CheckResultView::nothing());
}

/// A write that goes to a register of the SVD is reported for what the SVD gives reason
/// for, all of it and nothing else: a read-only register, a one past its width, a one in no
/// field, a field whose bits hold a number that is in none of the entries of its
/// enumeration, a one in a read-only field. And it is noted where a value or an
/// enumeration is missing.
pub proof fn writes_are_judged_by_the_svd(
    model: ModelView,
    access: RegisterAccessView,
    p: PeripheralView,
    r: RegisterView,
    x: FindingView,
    n: NotedView,
)
    requires
        goes_to(model, access.target, p, r),
    ensures
        checker::accesses_outcome(model, seq![access]).findings.contains(x) <==> x == about(
            access,
            x.kind,
            x.severity,
        ) && justified(p.name, r, access, x.kind, x.severity),
        checker::accesses_outcome(model, seq![access]).notes.contains(n) <==> n == (NotedView {
            note: n.note,
            file: access.file,
            line: access.line,
        }) && noteworthy(p.name, r, access, n.note),
{
    lemma_one_access(model, access);
    lemma_register_said(p.name, r, access, x, n);
    match access.target {
        TargetView::StructField { peripheral, register } => {
            peripherals_are_found_by_name(model, peripheral, p);
            registers_are_found_by_name(p, register, r);
        },
        TargetView::RegsMacro { peripheral, register: Some(register) } => {
            peripherals_are_found_by_name(model, peripheral, p);
            registers_are_found_by_name(p, register, r);
        },
        TargetView::Address(address) => {
            lemma_one_register_at(model, address, p, r);
        },
        _ => {},
    }
}

/// Whether the write leaves the field with a number that its enumeration does not have.
pub open spec fn left_unlisted(access: RegisterAccessView, v: u64, f: FieldView) -> bool {
    fixes(access, v, f) && (f.allowed_values matches Some(allowed) && forall|i: int|
        0 <= i < allowed.len() ==> !held(v, f, (#[trigger] allowed[i]).value))
}

proof fn lemma_fields_counted(
    peripheral: Seq<char>,
    register: Seq<char>,
    fields: Seq<FieldView>,
    access: RegisterAccessView,
    v: u64,
)
    ensures
        checker::fields_outcome(peripheral, register, fields, access, v).findings.len() == fields.filter(
            |f: FieldView| left_unlisted(access, v, f),
        ).len() + fields.filter(|f: FieldView| f.access == Access::ReadOnly && touches(v, f)).len(),
        checker::fields_outcome(peripheral, register, fields, access, v).notes.len() == fields.filter(
            |f: FieldView| f.allowed_values is None && fixes(access, v, f),
        ).len(),
    decreases fields.len(),
{
    reveal(Seq::filter);
    if fields.len() > 0 {
        let rest = fields.drop_last();
        let f = fields.last();
        lemma_fields_counted(peripheral, register, rest, access, v);
        lemma_touches(v, f);
        lemma_fixes(access, v, f);
        let m = bits::range_value(v, f.bit_offset, f.bit_width);
        if let Some(allowed) = f.allowed_values {
            if checker::lists(allowed, m) {
                let i = choose|i: int| 0 <= i < allowed.len() && (#[trigger] allowed[i]).value == m;
                lemma_held(v, f, allowed[i].value);
                assert(!left_unlisted(access, v, f));
            } else {
                assert forall|i: int| 0 <= i < allowed.len() implies !held(v, f, (#[trigger] allowed[i]).value) by {
                    lemma_held(v, f, allowed[i].value);
                }
            }
        }
    }
}

/// A write to a register gives each of its findings and notes once: one for a read-only
/// register, one for a value that is too wide, one for undefined bits, one for each field
/// that is left with an unlisted number, and one for each read-only field with a one.
pub proof fn writes_are_reported_once(
    model: ModelView,
    access: RegisterAccessView,
    p: PeripheralView,
    r: RegisterView,
)
    requires
        goes_to(model, access.target, p, r),
    ensures
        ({
            let out = checker::accesses_outcome(model, seq![access]);
            let own: nat = if r.access == Access::ReadOnly {
                1
            } else {
                0
            };
            match judged(access) {
                Some(v) => {
                    let wide: nat = if exists|i: u32| r.size_bits <= i && #[trigger] bits::bit(v, i) {
                        1
                    } else {
                        0
                    };
                    let undefined: nat = if r.fields.len() > 0 && exists|i: u32| #[trigger]
                        bits::bit(v, i) && checker_laws::in_no_field(r.fields, i) {
                        1
                    } else {
                        0
                    };
                    &&& out.findings.len() == own + wide + undefined + r.fields.filter(
                        |f: FieldView| left_unlisted(access, v, f),
                    ).len() + r.fields.filter(|f: FieldView| f.access == Access::ReadOnly && touches(v, f)).len()
                    &&& out.notes.len() == (if r.fields.len() == 0 {
                        1
                    } else {
                        r.fields.filter(|f: FieldView| f.allowed_values is None && fixes(access, v, f)).len()
                    })
                },
                None => out.findings.len() == own && out.notes.len() == 1,
            }
        }),
{
    lemma_one_access(model, access);
    match access.target {
        TargetView::StructField { peripheral, register } => {
            peripherals_are_found_by_name(model, peripheral, p);
            registers_are_found_by_name(p, register, r);
        },
        TargetView::RegsMacro { peripheral, register: Some(register) } => {
            peripherals_are_found_by_name(model, peripheral, p);
            registers_are_found_by_name(p, register, r);
        },
        TargetView::Address(address) => {
            lemma_one_register_at(model, address, p, r);
        },
        _ => {},
    }
    assert(checker::accesses_outcome(model, seq![access]) == checker::register_outcome(p.name, r, access));
    if let Some(v) = judged(access) {
        lemma_fields_counted(p.name, r.name, r.fields, access, v);
        values_fit_without_higher_bits(v, r.size_bits);
        checker_laws::undefined_bits_iff_outside_all_fields(v, r.fields);
        if exists|i: u32| r.size_bits <= i && #[trigger] bits::bit(v, i) {
            assert(!checker::fits(v, r.size_bits));
        }
        if r.fields.len() == 0 {
            reveal(Seq::filter);
        }
    }
}

/// A field that is assigned a number that none of the entries of its enumeration has is
/// reported, whatever lies between the entries.
pub proof fn unlisted_values_are_reported(
    model: ModelView,
    access: RegisterAccessView,
    p: PeripheralView,
    r: RegisterView,
    v: u64,
    k: int,
    number: u64,
)
    requires
        goes_to(model, access.target, p, r),
        access.op == AssignOp::Assign,
        access.value == Some(v),
        0 <= k < r.fields.len(),
        r.fields[k].allowed_values is Some,
        forall|i: u32|
            i < 64 ==> (#[trigger] bits::bit(number, i) <==> i < r.fields[k].bit_width && r.fields[k].bit_offset + i < 64
                && bits::bit(v, (r.fields[k].bit_offset + i) as u32)),
    ensures
        ({
            let allowed = r.fields[k].allowed_values->0;
            let kind = FindingKindView::FieldValueNotInEnum {
                peripheral: p.name,
                register: r.name,
                field: r.fields[k].name,
                value: number,
                allowed,
            };
            (forall|i: int| 0 <= i < allowed.len() ==> (#[trigger] allowed[i]).value != number)
                <==> checker::accesses_outcome(model, seq![access]).findings.contains(
                about(access, kind, Severity::Error),
            )
        }),
{
    let allowed = r.fields[k].allowed_values->0;
    let kind = FindingKindView::FieldValueNotInEnum {
        peripheral: p.name,
        register: r.name,
        field: r.fields[k].name,
        value: number,
        allowed,
    };
    assert(held(v, r.fields[k], number));
    assert(fixes(access, v, r.fields[k]));
    let note = NotedView { note: NoteView::UnresolvedAccess, file: access.file, line: access.line };
    writes_are_judged_by_the_svd(model, access, p, r, about(access, kind, Severity::Error), note);
}

/// A write that reaches no register is reported where the SVD shows that there is none:
/// a name that the peripheral does not have, an address in its block that is no
/// register's. Where it does not show that, there is one note.
pub proof fn writes_to_no_register(model: ModelView, access: RegisterAccessView, p: PeripheralView)
    ensures
        ({
            let out = checker::accesses_outcome(model, seq![access]);
            let only_finding = |kind: FindingKindView|
                out.findings == seq![about(access, kind, Severity::Error)] && out.notes.len() == 0;
            let only_note = |note: NoteView|
                out.notes == seq![NotedView { note, file: access.file, line: access.line }] && out.findings.len() == 0;
            match access.target {
                TargetView::Unresolved => only_note(NoteView::UnresolvedAccess),
                TargetView::RegsMacro { peripheral, register: None } => only_note(
                    NoteView::PeripheralOnlyKnown { peripheral },
                ),
                TargetView::StructField { peripheral, register } => {
                    &&& (forall|i: int|
                        0 <= i < model.peripherals.len() ==> (#[trigger] model.peripherals[i]).name != peripheral)
                        ==> only_note(NoteView::UnknownPeripheralGuess { peripheral })
                    &&& is_peripheral(model, peripheral, p) && (forall|i: int|
                        0 <= i < p.registers.len() ==> (#[trigger] p.registers[i]).name != register) ==> only_finding(
                        FindingKindView::NonexistentRegister { peripheral, register },
                    )
                },
                TargetView::RegsMacro { peripheral, register: Some(register) } => {
                    &&& (forall|i: int|
                        0 <= i < model.peripherals.len() ==> (#[trigger] model.peripherals[i]).name != peripheral)
                        ==> only_note(NoteView::UnknownPeripheralGuess { peripheral })
                    &&& is_peripheral(model, peripheral, p) && (forall|i: int|
                        0 <= i < p.registers.len() ==> (#[trigger] p.registers[i]).name != register) ==> only_finding(
                        FindingKindView::NonexistentRegister { peripheral, register },
                    )
                },
                TargetView::Address(address) => {
                    &&& no_register_at(model, address) && is_block_at(model, address, p) ==> only_finding(
                        FindingKindView::AddressNotARegister { peripheral: p.name, address },
                    )
                    &&& no_register_at(model, address) && (forall|i: int|
                        0 <= i < model.peripherals.len() ==> !holds_address(#[trigger] model.peripherals[i], address))
                        ==> only_note(NoteView::AddressNotMapped { address })
                },
            }
        }),
{
    lemma_one_access(model, access);
    lemma_written(access.op);
    match access.target {
        TargetView::StructField { peripheral, register } => {
            peripherals_are_found_by_name(model, peripheral, p);
            lemma_register(p.registers, register);
        },
        TargetView::RegsMacro { peripheral, register: Some(register) } => {
            peripherals_are_found_by_name(model, peripheral, p);
            lemma_register(p.registers, register);
        },
        TargetView::Address(address) => {
            addresses_are_resolved_by_the_map(model, address);
            if no_register_at(model, address) {
                lemma_at(model, address);
                lemma_block(model.peripherals, address);
                if is_block_at(model, address, p) {
                    let i = choose|i: int|
                        0 <= i < model.peripherals.len() && #[trigger] model.peripherals[i] == p && holds_address(
                            p,
                            address,
                        ) && forall|j: int| 0 <= j < i ==> !holds_address(#[trigger] model.peripherals[j], address);
                    assert(holds_address(model.peripherals[i], address));
                    if let Some(q) = svd_model::find_covering(model.peripherals, address) {
                        let k = choose|k: int|
                            0 <= k < model.peripherals.len() && #[trigger] model.peripherals[k] == q && holds_address(
                                q,
                                address,
                            ) && forall|j: int| 0 <= j < k ==> !holds_address(#[trigger] model.peripherals[j], address);
                        assert(holds_address(model.peripherals[k], address));
                        assert(i == k);
                    }
                }
            }
        },
        _ => {},
    }
}

} // verus!
