//! Helpers for 8-lane packs: lane bitmasks.

use vstd::prelude::*;

verus! {

/// Whether lane `i` is set in an 8-lane bitmask.
pub open spec fn lane_bit(m: u8, i: int) -> bool {
    (m >> (i as u8)) & 1u8 == 1u8
}

/// Setting bit `i` of a mask adds lane `i` and keeps every other lane.
pub proof fn lemma_lane_bit_set(m: u8, i: u8, j: u8)
    requires
        i < 8,
        j < 8,
    ensures
        lane_bit(m | (1u8 << i), j as int) == (lane_bit(m, j as int) || i == j),
{
    assert(((m | (1u8 << i)) >> j) & 1u8 == 1u8 <==> ((m >> j) & 1u8 == 1u8 || i == j))
        by (bit_vector)
        requires
            i < 8,
            j < 8,
    ;
}

/// A lane is set in the conjunction of two masks when it is set in both.
pub proof fn lemma_lane_bit_and(a: u8, b: u8, j: u8)
    requires
        j < 8,
    ensures
        lane_bit(a & b, j as int) == (lane_bit(a, j as int) && lane_bit(b, j as int)),
{
    assert(((a & b) >> j) & 1u8 == 1u8 <==> ((a >> j) & 1u8 == 1u8 && (b >> j) & 1u8 == 1u8))
        by (bit_vector)
        requires
            j < 8,
    ;
}

/// The empty mask has no lane set.
pub proof fn lemma_lane_bit_zero(j: u8)
    requires
        j < 8,
    ensures
        !lane_bit(0u8, j as int),
{
    assert((0u8 >> j) & 1u8 == 0u8) by (bit_vector);
}

/// Packs eight lane flags into a bitmask, lane `i` in bit `i`.
pub fn bitmask(flags: &[bool; 8]) -> (r: u8)
    ensures
        forall|i: int| 0 <= i < 8 ==> lane_bit(r, i) == flags@[i],
{
    let mut m: u8 = 0;
    let mut k: usize = 0;
    assert forall|j: int| 0 <= j < 8 implies !lane_bit(m, j) by {
        lemma_lane_bit_zero(j as u8);
    }
    while k < 8
        invariant
            k <= 8,
            forall|j: int| 0 <= j < 8 ==> lane_bit(m, j) == (j < k && flags@[j]),
        decreases 8 - k,
    {
        let old_m = m;
        if flags[k] {
            m = m | (1u8 << (k as u8));
        }
        assert forall|j: int| 0 <= j < 8 implies lane_bit(m, j) == (j < k + 1 && flags@[j]) by {
            if flags@[k as int] {
                lemma_lane_bit_set(old_m, k as u8, j as u8);
            }
        }
        k = k + 1;
    }
    m
}

} // verus!
