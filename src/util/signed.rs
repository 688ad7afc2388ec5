//! Iteration over the set bits of a 32-bit signed mask, as produced by a
//! sign-bit gather of eight or fewer lanes.

use vstd::prelude::*;

use crate::util::{lemma_no_bits, set_bits, take_lowest_bit};

verus! {

/// Positions of the set bits of a 32-bit word (its two's complement bits).
pub open spec fn set_bits32(bits: i32) -> Seq<usize> {
    set_bits((bits as u32) as u64)
}

/// Iterator over the positions of the set bits of a 32-bit mask, ascending.
#[derive(Clone, Copy, Debug)]
pub struct BitIter {
    bits: i32,
}

impl View for BitIter {
    type V = Seq<usize>;

    closed spec fn view(&self) -> Seq<usize> {
        set_bits32(self.bits)
    }
}

/// Iterates over the positions of the set bits of `bits`, lowest first.
pub fn bit_iter(bits: i32) -> (r: BitIter)
    ensures
        r@ == set_bits32(bits),
{
    BitIter { bits }
}

impl BitIter {
    /// The lowest remaining position, which is then dropped.
    pub fn next(&mut self) -> (r: Option<usize>)
        ensures
            old(self)@.len() == 0 ==> r is None && final(self)@ == old(self)@,
            old(self)@.len() > 0 ==> r == Some(old(self)@[0]) && final(self)@ == old(
                self,
            )@.drop_first(),
    {
        let wide = (self.bits as u32) as u64;
        if wide == 0 {
            proof {
                lemma_no_bits(0);
            }
            return None;
        }
        let (tz, rest) = take_lowest_bit(wide);
        proof {
            assert(rest < 0x1_0000_0000u64);
            assert(rest < 0x1_0000_0000u64 ==> (((rest as u32) as i32) as u32) as u64 == rest)
                by (bit_vector);
        }
        self.bits = (rest as u32) as i32;
        Some(tz)
    }

    /// All remaining positions, ascending.
    pub fn into_vec(self) -> (r: Vec<usize>)
        ensures
            r@ == self@,
    {
        let wide = (self.bits as u32) as u64;
        crate::util::bit_iter(wide).into_vec()
    }
}

} // verus!
