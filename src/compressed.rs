//! Integer side of the 16-bit compressed geometry of the BVH.
//!
//! A coordinate relative to an enclosing box is a value in `[0, 1]` stored
//! as `u / 65535` with `u` a `u16`. Scaling by 65535 and rounding happen in
//! floating point outside this crate; what they yield, truncated to `i32`,
//! is turned into lanes here: masked-out lanes become zero (the minimum of
//! the enclosing box) and the others are clamped to `0..=65535`.

use vstd::prelude::*;

use crate::geometry::{AABB, Triangle};
use crate::lanes::{bitmask, lane_bit, lemma_lane_bit_and};

verus! {

/// Largest stored value, standing for 1.
pub const UNIT_MAX: i32 = 65535;

/// The stored value of a scaled, rounded coordinate: zero outside the mask,
/// else clamped to `0..=65535`.
pub open spec fn quantized_lane(scaled: i32, in_mask: bool) -> u16 {
    if !in_mask || scaled <= 0 {
        0
    } else if scaled >= UNIT_MAX {
        65535
    } else {
        scaled as u16
    }
}

/// Eight values of the unit interval, 16 bits each.
#[derive(Clone, Copy, Debug)]
pub struct UnitInterval8 {
    lanes: [u16; 8],
}

impl View for UnitInterval8 {
    type V = Seq<u16>;

    closed spec fn view(&self) -> Seq<u16> {
        self.lanes@
    }
}

impl UnitInterval8 {
    /// Eight zero values.
    pub fn zero() -> (r: Self)
        ensures
            r@.len() == 8,
            forall|i: int| 0 <= i < 8 ==> #[trigger] r@[i] == 0,
    {
        UnitInterval8 { lanes: [0u16; 8] }
    }

    /// Stores scaled, rounded values; lanes whose mask bit is clear become zero.
    pub fn from_scaled(scaled: &[i32; 8], mask: u8) -> (r: Self)
        ensures
            r@.len() == 8,
            forall|i: int|
                0 <= i < 8 ==> #[trigger] r@[i] == quantized_lane(scaled@[i], lane_bit(mask, i)),
    {
        let mut lanes = [0u16; 8];
        let mut k: usize = 0;
        while k < 8
            invariant
                k <= 8,
                forall|i: int|
                    0 <= i < k ==> #[trigger] lanes@[i] == quantized_lane(
                        scaled@[i],
                        lane_bit(mask, i),
                    ),
            decreases 8 - k,
        {
            let in_mask = (mask >> (k as u8)) & 1u8 == 1u8;
            let v = scaled[k];
            lanes[k] = if !in_mask || v <= 0 {
                0u16
            } else if v >= UNIT_MAX {
                65535u16
            } else {
                v as u16
            };
            k = k + 1;
        }
        UnitInterval8 { lanes }
    }

    /// The stored values.
    pub fn raw(&self) -> (r: [u16; 8])
        ensures
            r@ == self@,
    {
        self.lanes
    }

    /// Mask of the lanes that hold exactly zero.
    pub fn is_zero(&self) -> (r: u8)
        ensures
            forall|i: int| 0 <= i < 8 ==> lane_bit(r, i) == (self@[i] == 0),
    {
        let mut flags = [false; 8];
        let mut k: usize = 0;
        while k < 8
            invariant
                k <= 8,
                self@.len() == 8,
                forall|i: int| 0 <= i < k ==> #[trigger] flags@[i] == (self@[i] == 0),
            decreases 8 - k,
        {
            flags[k] = self.lanes[k] == 0;
            k = k + 1;
        }
        bitmask(&flags)
    }
}

/// Eight points relative to an enclosing box.
#[derive(Clone, Copy, Debug)]
pub struct RelativePoint8 {
    pub x: UnitInterval8,
    pub y: UnitInterval8,
    pub z: UnitInterval8,
}

impl RelativePoint8 {
    /// Eight points at the minimum of the enclosing box.
    pub fn zero() -> (r: Self)
        ensures
            r.x@.len() == 8 && r.y@.len() == 8 && r.z@.len() == 8,
            forall|i: int| 0 <= i < 8 ==> r.x@[i] == 0 && r.y@[i] == 0 && r.z@[i] == 0,
    {
        RelativePoint8 { x: UnitInterval8::zero(), y: UnitInterval8::zero(), z: UnitInterval8::zero() }
    }

    /// Stores scaled, rounded coordinates; lanes whose mask bit is clear
    /// become the minimum of the enclosing box.
    pub fn from_scaled(x: &[i32; 8], y: &[i32; 8], z: &[i32; 8], mask: u8) -> (r: Self)
        ensures
            r.x@.len() == 8 && r.y@.len() == 8 && r.z@.len() == 8,
            forall|i: int|
                0 <= i < 8 ==> r.x@[i] == quantized_lane(x@[i], lane_bit(mask, i)) && r.y@[i]
                    == quantized_lane(y@[i], lane_bit(mask, i)) && r.z@[i] == quantized_lane(
                    z@[i],
                    lane_bit(mask, i),
                ),
    {
        RelativePoint8 {
            x: UnitInterval8::from_scaled(x, mask),
            y: UnitInterval8::from_scaled(y, mask),
            z: UnitInterval8::from_scaled(z, mask),
        }
    }

    /// Mask of the lanes whose three coordinates are all zero.
    pub fn is_zero(&self) -> (r: u8)
        ensures
            forall|i: int|
                0 <= i < 8 ==> lane_bit(r, i) == (self.x@[i] == 0 && self.y@[i] == 0
                    && self.z@[i] == 0),
    {
        let a = self.x.is_zero();
        let b = self.y.is_zero();
        let c = self.z.is_zero();
        let r = a & b & c;
        proof {
            assert forall|i: int| 0 <= i < 8 implies lane_bit(r, i) == (self.x@[i] == 0
                && self.y@[i] == 0 && self.z@[i] == 0) by {
                lemma_lane_bit_and(a, b, i as u8);
                lemma_lane_bit_and(a & b, c, i as u8);
            }
        }
        r
    }
}

/// Eight boxes relative to an enclosing box.
pub type RelativeBox8 = AABB<RelativePoint8>;

/// Eight triangles relative to an enclosing box.
pub type RelativeTriangle8 = Triangle<RelativePoint8>;

/// Lanes outside the mask of a compressed point are zero in every
/// coordinate: padding lanes of a pack are recognisable as empty.
pub proof fn lemma_masked_out_lanes_are_zero(x: [i32; 8], y: [i32; 8], z: [i32; 8], mask: u8, i: int)
    requires
        0 <= i < 8,
        !lane_bit(mask, i),
    ensures
        quantized_lane(x@[i], lane_bit(mask, i)) == 0,
        quantized_lane(y@[i], lane_bit(mask, i)) == 0,
        quantized_lane(z@[i], lane_bit(mask, i)) == 0,
{
}

} // verus!
