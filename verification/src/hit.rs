//! Records that the ray-march stage writes, and the events made from them.
//!
//! A sample value is an IEEE 754 single-precision number, held here as its
//! 32-bit pattern.  For two patterns with the sign bit clear that are not NaN,
//! the numbers are ordered as the patterns are; with the sign bit set the order
//! is reversed.  The predicates below rest on that and on nothing else.
//!
//! Intensities are accumulated in fixed point.  One unit is 2^-20, the largest
//! power of two that is not above the noise floor, so every finite sample
//! that is forwarded counts at least one unit.  A sample is converted exactly
//! and rounded down: a finite pattern stands for its significand times a
//! power of two, and the conversion only moves that power.
use vstd::prelude::*;
use vstd::arithmetic::div_mod::lemma_div_denominator;
use vstd::arithmetic::power2::{
    lemma2_to64, lemma_pow2_pos, lemma_pow2_strictly_increases, lemma_pow2_unfold, pow2,
};
use crate::voxel::{cell_count, coords_of, Voxel};

verus! {

/// Index that marks a slot of the hit buffer as holding no voxel.
pub const NO_VOXEL: u32 = 0xFFFF_FFFF;

/// Sample value of a slot that was never written: the pattern of `-50.0`.
pub const UNWRITTEN_VALUE: u32 = 0xC248_0000;

/// Noise floor: the pattern of the single-precision number nearest to `1e-6`.
pub const EPSILON: u32 = 0x3586_37BD;

/// Pattern of positive infinity, the largest pattern that is not NaN.
pub const POSITIVE_INFINITY: u32 = 0x7F80_0000;

/// Pattern of negative zero, the smallest pattern with the sign bit set.
pub const NEGATIVE_ZERO: u32 = 0x8000_0000;

/// Pattern of negative infinity, the largest signed pattern that is not NaN.
pub const NEGATIVE_INFINITY: u32 = 0xFF80_0000;

/// Number of binary places of an intensity: one unit is 2^-20.
pub const UNIT_BITS: u32 = 20;

/// The exponent field of a pattern with the sign bit clear.
pub open spec fn sample_exponent(bits: u32) -> int {
    ((bits / 0x80_0000) % 0x100) as int
}

/// The significand of the number with pattern `bits`: the fraction field,
/// with the leading one where the number is normal.
pub open spec fn sample_significand(bits: u32) -> int {
    if sample_exponent(bits) == 0 {
        (bits % 0x80_0000) as int
    } else {
        bits % 0x80_0000 + 0x80_0000
    }
}

/// The power of two by which the significand of the number with pattern
/// `bits` is multiplied.
pub open spec fn sample_power(bits: u32) -> int {
    if sample_exponent(bits) == 0 {
        -149
    } else {
        sample_exponent(bits) - 150
    }
}

/// `significand` times two to the `power`, rounded down.
pub open spec fn scaled(significand: int, power: int) -> int {
    if power >= 0 {
        significand * pow2(power as nat)
    } else {
        significand / (pow2((-power) as nat) as int)
    }
}

/// The whole units that the number with pattern `bits` stands for, rounded
/// down, or `None` where it is negative, infinite or NaN.  Negative zero
/// counts as zero.
pub open spec fn sample_units(bits: u32) -> Option<int> {
    if bits == NEGATIVE_ZERO {
        Some(0)
    } else if bits >= POSITIVE_INFINITY {
        None
    } else {
        Some(scaled(sample_significand(bits), sample_power(bits) + UNIT_BITS))
    }
}

/// Whether the number with pattern `bits` is less than zero.  Negative zero
/// and NaN are not.
pub open spec fn sample_is_negative(bits: u32) -> bool {
    NEGATIVE_ZERO < bits <= NEGATIVE_INFINITY
}

/// Whether the number with pattern `bits` is greater than the noise floor.
/// NaN is not.
pub open spec fn sample_exceeds_epsilon(bits: u32) -> bool {
    EPSILON < bits <= POSITIVE_INFINITY
}

/// One slot of the hit buffer: a voxel offset and a sample value.
#[derive(Clone, Copy, Debug, PartialEq, Eq, Structural)]
pub struct VoxelHit {
    pub pos_idx: u32,
    pub value_bits: u32,
}

/// A hit that is forwarded to the intensity store.
#[derive(Clone, Copy, Debug, PartialEq, Eq, Structural)]
pub struct VoxelHitEvent {
    pub voxel: Voxel,
    pub value_bits: u32,
}

/// The content of a slot that holds no hit.
pub open spec fn unused_slot() -> VoxelHit {
    VoxelHit { pos_idx: NO_VOXEL, value_bits: UNWRITTEN_VALUE }
}

/// The whole units that a sample stands for, rounded down.  `None` where the
/// sample is negative, infinite or NaN, and where the units do not fit in 64
/// bits.
pub fn units_of_sample(value_bits: u32) -> (r: Option<u64>)
    ensures
        r == match sample_units(value_bits) {
            Some(units) => if units <= u64::MAX {
                Some(units as u64)
            } else {
                None
            },
            None => None,
        },
{
    if value_bits == NEGATIVE_ZERO {
        return Some(0);
    }
    if value_bits >= POSITIVE_INFINITY {
        return None;
    }
    let exponent: u32 = value_bits / 0x80_0000;
    let fraction: u32 = value_bits % 0x80_0000;
    let significand: u64 = if exponent == 0 {
        fraction as u64
    } else {
        fraction as u64 + 0x80_0000
    };
    let biased: u32 = if exponent == 0 {
        1
    } else {
        exponent
    };
    assert(sample_power(value_bits) + UNIT_BITS == biased - 130);
    assert(significand == sample_significand(value_bits));
    let ghost units: int = scaled(significand as int, biased - 130);
    assert(sample_units(value_bits) == Some(units));
    let mut acc: u64 = significand;
    let mut i: u32 = 0;
    proof {
        lemma2_to64();
    }
    if biased >= 130 {
        let shift: u32 = biased - 130;
        while i < shift
            invariant
                i <= shift,
                acc == significand * pow2(i as nat),
                units == significand * pow2(shift as nat),
                sample_units(value_bits) == Some(units),
            decreases shift - i,
        {
            proof {
                lemma_pow2_unfold((i + 1) as nat);
                assert(significand * (2 * pow2(i as nat)) == 2 * (significand * pow2(i as nat)))
                    by (nonlinear_arith);
            }
            if acc > u64::MAX / 2 {
                proof {
                    if i + 1 < shift {
                        lemma_pow2_strictly_increases((i + 1) as nat, shift as nat);
                    }
                    assert(significand * pow2(shift as nat) >= significand * pow2(
                        (i + 1) as nat,
                    )) by (nonlinear_arith)
                        requires
                            pow2(shift as nat) >= pow2((i + 1) as nat),
                            significand >= 0,
                    ;
                }
                return None;
            }
            acc = acc * 2;
            i += 1;
        }
        Some(acc)
    } else {
        let shift: u32 = 130 - biased;
        while i < shift
            invariant
                i <= shift,
                acc == (significand as int) / (pow2(i as nat) as int),
            decreases shift - i,
        {
            proof {
                lemma_pow2_unfold((i + 1) as nat);
                lemma_pow2_pos(i as nat);
                lemma_div_denominator(significand as int, pow2(i as nat) as int, 2);
                assert(pow2(i as nat) * 2 == 2 * pow2(i as nat));
            }
            acc = acc / 2;
            i += 1;
        }
        Some(acc)
    }
}

/// A finite sample above the noise floor counts at least one unit.
pub proof fn lemma_signal_counts(bits: u32)
    requires
        sample_exceeds_epsilon(bits),
        bits < POSITIVE_INFINITY,
    ensures
        sample_units(bits) is Some,
        sample_units(bits)->Some_0 >= 1,
{
    let exponent = sample_exponent(bits);
    let significand = sample_significand(bits);
    assert(exponent >= 107);
    assert(significand >= 0x80_0000);
    lemma2_to64();
    if exponent >= 130 {
        lemma_pow2_pos((exponent - 130) as nat);
        assert(significand * pow2((exponent - 130) as nat) >= significand) by (nonlinear_arith)
            requires
                significand >= 0,
                pow2((exponent - 130) as nat) >= 1,
        ;
    } else {
        let shift = (130 - exponent) as nat;
        if shift < 23 {
            lemma_pow2_strictly_increases(shift, 23);
        }
        lemma_pow2_pos(shift);
        assert(significand / (pow2(shift) as int) >= 1) by (nonlinear_arith)
            requires
                significand >= 0x80_0000,
                0 < pow2(shift) <= 0x80_0000,
        ;
    }
}

impl Default for VoxelHit {
    /// The content of an unused slot, which ends a scan.
    fn default() -> (hit: VoxelHit)
        ensures
            hit == unused_slot(),
            hit.is_end(),
    {
        VoxelHit { pos_idx: NO_VOXEL, value_bits: UNWRITTEN_VALUE }
    }
}

impl VoxelHit {
    /// Whether a scan of the buffer ends at this slot: it holds no voxel, or
    /// its value is negative.
    pub open spec fn is_end(self) -> bool {
        self.pos_idx == NO_VOXEL || sample_is_negative(self.value_bits)
    }

    /// Whether this slot is forwarded: its value is above the noise floor.
    pub open spec fn is_signal(self) -> bool {
        sample_exceeds_epsilon(self.value_bits)
    }

    /// The event that this slot is forwarded as.
    pub open spec fn event(self, grid_size: u32) -> VoxelHitEvent {
        let (x, y, z) = coords_of(self.pos_idx as int, grid_size as int);
        VoxelHitEvent {
            voxel: Voxel { x: x as u32, y: y as u32, z: z as u32 },
            value_bits: self.value_bits,
        }
    }

    /// Tells whether a scan of the buffer ends at this slot.
    pub fn ends_scan(&self) -> (r: bool)
        ensures
            r == self.is_end(),
    {
        self.pos_idx == NO_VOXEL || (self.value_bits > NEGATIVE_ZERO && self.value_bits
            <= NEGATIVE_INFINITY)
    }

    /// Tells whether the value of this slot is above the noise floor.
    pub fn carries_signal(&self) -> (r: bool)
        ensures
            r == self.is_signal(),
    {
        self.value_bits > EPSILON && self.value_bits <= POSITIVE_INFINITY
    }

    /// The cell that this slot's offset stands for.
    pub fn voxel(&self, grid_size: u32) -> (v: Voxel)
        requires
            grid_size > 0,
        ensures
            v == self.event(grid_size).voxel,
            v.offset(grid_size) == self.pos_idx,
            v.within(grid_size) <==> self.pos_idx < cell_count(grid_size as int),
    {
        Voxel::from_idx(self.pos_idx, grid_size)
    }

    /// Points this slot at the cell `voxel`, leaving its value as it is.
    pub fn id_from_pos(&mut self, grid_size: u32, voxel: Voxel)
        requires
            voxel.within(grid_size),
            voxel.offset(grid_size) <= u32::MAX,
        ensures
            final(self).pos_idx == voxel.offset(grid_size),
            final(self).value_bits == old(self).value_bits,
    {
        self.pos_idx = voxel.idx(grid_size);
    }
}

} // verus!
