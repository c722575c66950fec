//! Bit ranges of register values.

use vstd::prelude::*;

verus! {

/// The value whose lowest `width` bits are set and no others.
pub open spec fn low_mask(width: u32) -> u64 {
    if width >= 64 {
        u64::MAX
    } else {
        ((1u64 << width) - 1) as u64
    }
}

/// The value whose bits `offset .. offset + width` are set and no others.
/// Bits past the sixty-fourth do not exist.
pub open spec fn range_mask(offset: u32, width: u32) -> u64 {
    if offset >= 64 {
        0
    } else {
        low_mask(width) << offset
    }
}

/// The number held by the bits `offset .. offset + width` of `value`.
pub open spec fn range_value(value: u64, offset: u32, width: u32) -> u64 {
    if offset >= 64 {
        0
    } else {
        (value >> offset) & low_mask(width)
    }
}

/// Whether bit `i` of `value` is set.
pub open spec fn bit(value: u64, i: u32) -> bool {
    i < 64 && (value >> i) & 1 == 1
}

/// The mask of the lowest `bit_width` bits.
pub fn width_mask(bit_width: u32) -> (r: u64)
    ensures
        r == low_mask(bit_width),
{
    if bit_width >= 64 {
        u64::MAX
    } else {
        assert(bit_width < 64 ==> 1u64 << bit_width >= 1) by (bit_vector);
        (1u64 << bit_width) - 1
    }
}

/// The mask of the bits `offset .. offset + width`.
pub fn range_mask_of(offset: u32, width: u32) -> (r: u64)
    ensures
        r == range_mask(offset, width),
{
    if offset >= 64 {
        0
    } else {
        width_mask(width) << offset
    }
}

/// The number held by the bits `offset .. offset + width` of `value`.
pub fn range_value_of(value: u64, offset: u32, width: u32) -> (r: u64)
    ensures
        r == range_value(value, offset, width),
{
    if offset >= 64 {
        0
    } else {
        (value >> offset) & width_mask(width)
    }
}

/// A mask holds exactly the bits of its range.
pub proof fn range_mask_bits(offset: u32, width: u32, i: u32)
    ensures
        bit(range_mask(offset, width), i) <==> i < 64 && offset <= i < offset + width,
{
    if i < 64 {
        if offset >= 64 {
            assert((0u64 >> i) & 1 != 1) by (bit_vector);
        } else if width >= 64 {
            assert(i < 64 && offset < 64 ==> (((0xffff_ffff_ffff_ffffu64 << offset) >> i) & 1 == 1 <==> offset <= i)) by (bit_vector);
        } else {
            assert(i < 64 && offset < 64 && width < 64 ==> ((((((1u64 << width) - 1) as u64) << offset) >> i) & 1 == 1 <==> offset <= i && i < offset + width)) by (bit_vector);
        }
    }
}

/// A value fits in `width` bits exactly if it is the number held by its lowest
/// `width` bits.
pub proof fn fits_iff_low_bits(value: u64, width: u32)
    requires
        width < 64,
    ensures
        value < (1u64 << width) <==> range_value(value, 0, width) == value,
{
    assert(width < 64 ==> (value < (1u64 << width) <==> (value >> 0u32) & (((1u64 << width) - 1) as u64) == value)) by (bit_vector);
}

/// A set bit outside `mask` is what makes `value & !mask` differ from zero.
pub proof fn outside_mask_iff_bit(value: u64, mask: u64)
    ensures
        value & !mask != 0 <==> exists|i: u32| #[trigger] bit(value, i) && !bit(mask, i),
{
    if value & !mask != 0 {
        assert((value & !mask) >> 0u32 == value & !mask) by (bit_vector);
        outside_mask_has_bit(value, mask, 0);
    }
    assert forall|i: u32| #[trigger] bit(value, i) && !bit(mask, i) implies value & !mask != 0 by {
        assert(i < 64 && (value >> i) & 1 == 1 && (mask >> i) & 1 != 1 ==> value & !mask != 0) by (bit_vector);
    }
}

proof fn outside_mask_has_bit(value: u64, mask: u64, from: u32)
    requires
        from < 64,
        (value & !mask) >> from != 0,
    ensures
        exists|i: u32| #[trigger] bit(value, i) && !bit(mask, i),
    decreases 64 - from,
{
    let outside = value & !mask;
    assert(from < 64 && outside == value & !mask && (outside >> from) & 1 == 1 ==> (value >> from) & 1 == 1 && (mask >> from) & 1 != 1) by (bit_vector);
    if (outside >> from) & 1 == 1 {
        assert(bit(value, from) && !bit(mask, from));
    } else {
        assert(from < 64 && outside >> from != 0 && (outside >> from) & 1 != 1 ==> from < 63 && outside >> ((from + 1) as u32) != 0) by (bit_vector);
        outside_mask_has_bit(value, mask, (from + 1) as u32);
    }
}

/// Masks join bit by bit.
pub proof fn or_bits(a: u64, b: u64, i: u32)
    ensures
        bit(a | b, i) <==> bit(a, i) || bit(b, i),
{
    assert(i < 64 ==> (((a | b) >> i) & 1 == 1 <==> (a >> i) & 1 == 1 || (b >> i) & 1 == 1)) by (bit_vector);
}

} // verus!
