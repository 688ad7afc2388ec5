//! Conversion between flat element sequences and 8-lane packs.

use vstd::prelude::*;

use crate::lanes::{bitmask, lane_bit};

verus! {

broadcast use vstd::array::group_array_axioms;

/// Element `i` of pack `w` when `values` are cut into packs of eight and the
/// last pack is filled up with `fill`.
pub open spec fn window_lane<T>(values: Seq<T>, fill: T, w: int, i: int) -> T {
    if w * 8 + i < values.len() {
        values[w * 8 + i]
    } else {
        fill
    }
}

/// Number of packs of eight needed for `n` elements.
pub open spec fn window_count(n: int) -> int {
    (n + 7) / 8
}

/// Cuts `values` into packs of eight lanes with a mask of the lanes that
/// hold an element. The last pack is filled up with `fill`, its mask bits
/// clear there. No pack is produced for an empty input.
pub fn simd_windows<T: Copy>(values: &Vec<T>, fill: T) -> (r: Vec<([T; 8], u8)>)
    ensures
        r@.len() == window_count(values@.len() as int),
        forall|w: int, i: int|
            0 <= w < r@.len() && 0 <= i < 8 ==> #[trigger] r@[w].0@[i] == window_lane(
                values@,
                fill,
                w,
                i,
            ) && lane_bit(r@[w].1, i) == (w * 8 + i < values@.len()),
{
    let n = values.len();
    let mut r: Vec<([T; 8], u8)> = Vec::new();
    let mut start: usize = 0;
    while start < n
        invariant
            n == values@.len(),
            start <= n,
            start < n ==> start == r@.len() * 8,
            r@.len() == window_count(start as int),
            forall|w: int, i: int|
                0 <= w < r@.len() && 0 <= i < 8 ==> #[trigger] r@[w].0@[i] == window_lane(
                    values@,
                    fill,
                    w,
                    i,
                ) && lane_bit(r@[w].1, i) == (w * 8 + i < values@.len()),
        decreases n - start,
    {
        let ghost w = r@.len() as int;
        let mut lanes = [fill; 8];
        let mut flags = [false; 8];
        let mut j: usize = 0;
        while j < 8
            invariant
                n == values@.len(),
                start < n,
                j <= 8,
                forall|i: int|
                    0 <= i < j ==> #[trigger] lanes@[i] == window_lane(values@, fill, w, i),
                forall|i: int| 0 <= i < j ==> #[trigger] flags@[i] == (start + i < n),
                forall|i: int| j <= i < 8 ==> #[trigger] lanes@[i] == fill,
                forall|i: int| j <= i < 8 ==> !#[trigger] flags@[i],
                start == w * 8,
            decreases 8 - j,
        {
            if start + j < n {
                lanes[j] = values[start + j];
                flags[j] = true;
            }
            j = j + 1;
        }
        let mask = bitmask(&flags);
        r.push((lanes, mask));
        proof {
            assert forall|i: int| 0 <= i < 8 implies #[trigger] r@[w].0@[i] == window_lane(
                values@,
                fill,
                w,
                i,
            ) && lane_bit(r@[w].1, i) == (w * 8 + i < values@.len()) by {}
        }
        start = if n - start < 8 {
            n
        } else {
            start + 8
        };
    }
    proof {
        assert(r@.len() == window_count(n as int));
    }
    r
}

/// The lanes of a pack, in order.
pub fn simd_element_iter<T: Copy>(value: &[T; 8]) -> (r: Vec<T>)
    ensures
        r@ == value@,
{
    let mut r: Vec<T> = Vec::new();
    let mut i: usize = 0;
    while i < 8
        invariant
            i <= 8,
            r@ == value@.subrange(0, i as int),
        decreases 8 - i,
    {
        r.push(value[i]);
        proof {
            assert(value@.subrange(0, i + 1) =~= value@.subrange(0, i as int).push(value@[i as int]));
        }
        i = i + 1;
    }
    proof {
        assert(value@.subrange(0, 8) =~= value@);
    }
    r
}

} // verus!
