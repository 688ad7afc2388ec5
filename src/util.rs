//! Iteration over the set bits of lane masks, and chunking of element
//! sequences into 8-lane packs.

use vstd::prelude::*;

pub mod signed;
pub mod simba;

verus! {

/// Positions of the set bits of `bits` from position `k` up, ascending.
pub open spec fn set_bits_from(bits: u64, k: nat) -> Seq<usize>
    decreases 64 - k,
{
    if k >= 64 {
        seq![]
    } else if (bits >> (k as u64)) & 1u64 == 1u64 {
        seq![k as usize] + set_bits_from(bits, k + 1)
    } else {
        set_bits_from(bits, k + 1)
    }
}

/// Positions of the set bits of `bits`, ascending.
pub open spec fn set_bits(bits: u64) -> Seq<usize> {
    set_bits_from(bits, 0)
}

proof fn lemma_skip_zero_bits(bits: u64, k: nat, t: nat)
    requires
        k <= t <= 64,
        forall|j: u64| k <= j < t ==> #[trigger] ((bits >> j) & 1u64) == 0u64,
    ensures
        set_bits_from(bits, k) == set_bits_from(bits, t),
    decreases t - k,
{
    if k < t {
        assert((bits >> (k as u64)) & 1u64 == 0u64);
        lemma_skip_zero_bits(bits, k + 1, t);
    }
}

proof fn lemma_same_bits(a: u64, b: u64, k: nat)
    requires
        k <= 64,
        forall|j: u64| k <= j < 64 ==> #[trigger] ((a >> j) & 1u64) == (b >> j) & 1u64,
    ensures
        set_bits_from(a, k) == set_bits_from(b, k),
    decreases 64 - k,
{
    if k < 64 {
        assert((a >> (k as u64)) & 1u64 == (b >> (k as u64)) & 1u64);
        lemma_same_bits(a, b, k + 1);
    }
}

proof fn lemma_set_bits_len(bits: u64, k: nat)
    requires
        k <= 64,
    ensures
        set_bits_from(bits, k).len() <= 64 - k,
    decreases 64 - k,
{
    if k < 64 {
        lemma_set_bits_len(bits, k + 1);
    }
}

pub(crate) proof fn lemma_no_bits(k: nat)
    requires
        k <= 64,
    ensures
        set_bits_from(0u64, k) == Seq::<usize>::empty(),
    decreases 64 - k,
{
    if k < 64 {
        let kk = k as u64;
        assert((0u64 >> kk) & 1u64 == 0u64) by (bit_vector);
        lemma_no_bits(k + 1);
    }
}

proof fn lemma_low_bits_clear(b: u64, t: u64)
    requires
        t < 64,
        forall|j: u64| j < t ==> #[trigger] ((b >> j) & 1u64) == 0u64,
    ensures
        b & vstd::prelude::sub(1u64 << t, 1u64) == 0u64,
    decreases t,
{
    if t == 0 {
        assert(b & vstd::prelude::sub(1u64 << 0u64, 1u64) == 0u64) by (bit_vector);
    } else {
        let s = (t - 1) as u64;
        lemma_low_bits_clear(b, s);
        assert((b >> s) & 1u64 == 0u64);
        assert(b & vstd::prelude::sub(1u64 << t, 1u64) == 0u64) by (bit_vector)
            requires
                s < 63,
                t == vstd::prelude::add(s, 1u64),
                b & vstd::prelude::sub(1u64 << s, 1u64) == 0u64,
                (b >> s) & 1u64 == 0u64,
        ;
    }
}

proof fn lemma_clear_lowest(b: u64, t: u64, j: u64)
    requires
        t < 64,
        j < 64,
        b & vstd::prelude::sub(1u64 << t, 1u64) == 0u64,
        (b >> t) & 1u64 == 1u64,
    ensures
        j <= t ==> ((b & vstd::prelude::sub(b, 1u64)) >> j) & 1u64 == 0u64,
        j > t ==> ((b & vstd::prelude::sub(b, 1u64)) >> j) & 1u64 == (b >> j) & 1u64,
{
    assert(j <= t ==> ((b & vstd::prelude::sub(b, 1u64)) >> j) & 1u64 == 0u64) by (bit_vector)
        requires
            t < 64,
            j < 64,
            b & vstd::prelude::sub(1u64 << t, 1u64) == 0u64,
            (b >> t) & 1u64 == 1u64,
    ;
    assert(j > t ==> ((b & vstd::prelude::sub(b, 1u64)) >> j) & 1u64 == (b >> j) & 1u64) by (bit_vector)
        requires
            t < 64,
            j < 64,
            b & vstd::prelude::sub(1u64 << t, 1u64) == 0u64,
            (b >> t) & 1u64 == 1u64,
    ;
}

/// Splits a non-zero word into its lowest set bit and the word without it.
pub(crate) fn take_lowest_bit(b: u64) -> (r: (usize, u64))
    requires
        b != 0,
    ensures
        set_bits(b).len() > 0,
        r.0 == set_bits(b)[0],
        set_bits(r.1) == set_bits(b).drop_first(),
        r.1 < b,
{
    let tz = b.trailing_zeros();
    proof {
        vstd::std_specs::bits::axiom_u64_trailing_zeros(b);
    }
    let rest = b & (b - 1);
    proof {
        let t = tz as u64;
        lemma_low_bits_clear(b, t);
        assert forall|j: u64| j < 64 implies #[trigger] ((rest >> j) & 1u64) == if j <= t {
            0u64
        } else {
            (b >> j) & 1u64
        } by {
            lemma_clear_lowest(b, t, j);
        }
        lemma_skip_zero_bits(b, 0, tz as nat);
        assert(set_bits_from(b, tz as nat) == seq![tz as usize] + set_bits_from(b, (tz + 1) as nat));
        assert forall|j: u64| 0 <= j < t + 1 implies #[trigger] ((rest >> j) & 1u64) == 0u64 by {}
        lemma_skip_zero_bits(rest, 0, (tz + 1) as nat);
        assert forall|j: u64| t + 1 <= j < 64 implies #[trigger] ((rest >> j) & 1u64) == (b >> j)
            & 1u64 by {}
        lemma_same_bits(rest, b, (tz + 1) as nat);
        assert(set_bits(b).drop_first() =~= set_bits_from(b, (tz + 1) as nat));
        assert(b & vstd::prelude::sub(b, 1u64) <= b) by (bit_vector);
        assert(rest != b) by {
            assert((rest >> t) & 1u64 == 0u64);
        }
    }
    (tz as usize, rest)
}

/// Iterator over the positions of the set bits of a 64-bit mask, ascending.
#[derive(Clone, Copy, Debug)]
pub struct BitIter {
    bits: u64,
}

impl View for BitIter {
    type V = Seq<usize>;

    closed spec fn view(&self) -> Seq<usize> {
        set_bits(self.bits)
    }
}

/// Iterates over the positions of the set bits of `bits`, lowest first.
pub fn bit_iter(bits: u64) -> (r: BitIter)
    ensures
        r@ == set_bits(bits),
{
    BitIter { bits }
}

impl BitIter {
    /// The lowest remaining position, which is then dropped.
    pub fn next(&mut self) -> (r: Option<usize>)
        ensures
            old(self)@.len() == 0 ==> r is None && final(self)@ == old(self)@,
            old(self)@.len() > 0 ==> r == Some(old(self)@[0]) && final(self)@ == old(
                self,
            )@.drop_first(),
    {
        if self.bits == 0 {
            proof {
                lemma_no_bits(0);
            }
            return None;
        }
        let (tz, rest) = take_lowest_bit(self.bits);
        self.bits = rest;
        Some(tz)
    }

    /// The mask of the positions left.
    pub(crate) fn remaining_bits(&self) -> (r: u64)
        ensures
            set_bits(r) == self@,
    {
        self.bits
    }

    /// Number of positions left.
    pub fn len(&self) -> (r: usize)
        ensures
            r == self@.len(),
    {
        let mut copy = *self;
        let mut n: usize = 0;
        proof {
            lemma_set_bits_len(self.bits, 0);
        }
        while copy.bits != 0
            invariant
                n + copy@.len() == self@.len(),
                copy@.len() <= 64,
            decreases copy.bits,
        {
            let (_tz, rest) = take_lowest_bit(copy.bits);
            copy.bits = rest;
            proof {
                lemma_set_bits_len(self.bits, 0);
            }
            n = n + 1;
        }
        proof {
            lemma_no_bits(0);
        }
        n
    }

    /// All remaining positions, ascending.
    pub fn into_vec(self) -> (r: Vec<usize>)
        ensures
            r@ == self@,
    {
        let mut it = self;
        let mut r: Vec<usize> = Vec::new();
        while it.bits != 0
            invariant
                r@ + it@ == self@,
            decreases it.bits,
        {
            let ghost before = it@;
            let (tz, rest) = take_lowest_bit(it.bits);
            it.bits = rest;
            proof {
                assert(r@.push(tz) + it@ =~= r@ + before);
            }
            r.push(tz);
        }
        proof {
            lemma_no_bits(0);
            assert(r@ + it@ =~= r@);
        }
        r
    }
}

} // verus!
