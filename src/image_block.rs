//! Blocks of screen space in `usize` coordinates, iterated by pixels or by
//! square chunks in spiral order from the middle.

use vstd::prelude::*;

verus! {

/// `a / b` rounded up.
pub open spec fn ceil_div(a: int, b: int) -> int {
    a / b + if a % b != 0 {
        1int
    } else {
        0int
    }
}

/// `a / b`, rounded up.
pub fn divide_round_up(a: usize, b: usize) -> (r: usize)
    requires
        b > 0,
    ensures
        r == ceil_div(a as int, b as int),
{
    let d = a / b;
    let m = a % b;
    proof {
        assert(d * b + m == a) by (nonlinear_arith)
            requires
                d == a / b,
                m == a % b,
                b > 0,
        ;
        assert(m != 0 ==> d < a) by (nonlinear_arith)
            requires
                d * b + m == a,
                b > 0,
                m >= 0,
                d >= 0,
        ;
    }
    d + if m != 0 {
        1usize
    } else {
        0usize
    }
}

proof fn lemma_below_ceil(i: int, a: int, b: int)
    requires
        0 <= i < ceil_div(a, b),
        a >= 0,
        b > 0,
    ensures
        i * b < a,
{
    let d = a / b;
    let m = a % b;
    vstd::arithmetic::div_mod::lemma_fundamental_div_mod(a, b);
    vstd::arithmetic::div_mod::lemma_mod_pos_bound(a, b);
    assert(i * b < a) by (nonlinear_arith)
        requires
            a == b * d + m,
            0 <= m < b,
            i < d + (if m != 0 {
                1int
            } else {
                0int
            }),
            i >= 0,
            b > 0,
    ;
}

/// A block of screen space.
#[derive(Clone, Copy, Debug)]
pub struct Block {
    pub x: usize,
    pub y: usize,
    pub w: usize,
    pub h: usize,
}

/// Chunk `(bx, by)` of a block cut into squares of `size`, clipped at the
/// right and bottom edges.
pub open spec fn chunk_of(b: Block, bx: int, by: int, size: int) -> Block {
    Block {
        x: (bx * size + b.x) as usize,
        y: (by * size + b.y) as usize,
        w: if size <= b.w - bx * size {
            size as usize
        } else {
            (b.w - bx * size) as usize
        },
        h: if size <= b.h - by * size {
            size as usize
        } else {
            (b.h - by * size) as usize
        },
    }
}

/// The chunk grid of a block has a positive chunk size, and its width,
/// height and chunk count fit in `isize`.
pub open spec fn chunk_grid_fits(b: Block, size: int) -> bool {
    &&& size > 0
    &&& ceil_div(b.w as int, size) <= isize::MAX
    &&& ceil_div(b.h as int, size) <= isize::MAX
    &&& ceil_div(b.w as int, size) * ceil_div(b.h as int, size) <= isize::MAX
}

impl Block {
    /// A block of the given size at the origin.
    pub fn new(w: usize, h: usize) -> (r: Block)
        ensures
            r == (Block { x: 0, y: 0, w, h }),
    {
        Block { x: 0, y: 0, w, h }
    }

    /// Coordinates of the block fit in `usize`.
    pub open spec fn fits(&self) -> bool {
        self.x + self.w <= usize::MAX && self.y + self.h <= usize::MAX
    }

    pub open spec fn spec_is_empty(&self) -> bool {
        self.w == 0 || self.h == 0
    }

    pub open spec fn spec_contains(&self, coord: (usize, usize)) -> bool {
        self.x <= coord.0 < self.x + self.w && self.y <= coord.1 < self.y + self.h
    }

    /// True if the block holds no coordinates.
    pub fn is_empty(&self) -> (r: bool)
        ensures
            r == self.spec_is_empty(),
    {
        self.w == 0 || self.h == 0
    }

    /// True if `coord` lies in the block.
    pub fn contains(&self, coord: (usize, usize)) -> (r: bool)
        ensures
            r == self.spec_contains(coord),
    {
        coord.0 >= self.x && coord.0 - self.x < self.w && coord.1 >= self.y && coord.1 - self.y
            < self.h
    }

    /// Iterator over the `(x, y)` pairs of the block, x changing first.
    pub fn pixel_coordinates(&self) -> (r: PixelCoordinates)
        requires
            self.fits(),
        ensures
            r.wf(),
            self.spec_is_empty() ==> r.spec_len() == 0,
            !self.spec_is_empty() ==> r.x0 == self.x && r.x == self.x && r.y == self.y && r.x1
                == self.x + self.w - 1 && r.y1 == self.y + self.h - 1,
            !self.spec_is_empty() ==> r.spec_len() == self.w * self.h,
    {
        if self.is_empty() {
            PixelCoordinates { x0: 1, x1: 0, y1: 0, x: 1, y: 1 }
        } else {
            let r = PixelCoordinates {
                x0: self.x,
                x1: self.x + self.w - 1,
                y1: self.y + self.h - 1,
                x: self.x,
                y: self.y,
            };
            proof {
                assert((self.h - 1) * self.w + self.w == self.w * self.h) by (nonlinear_arith);
            }
            r
        }
    }

    /// Iterator over chunks of `chunk_size` squared in spiral order, starting
    /// in the middle of the block. Chunks on the right and bottom edges are
    /// clipped. Fails when the chunk size is zero or the chunk grid is too
    /// large for `isize`.
    pub fn spiral_chunks(self, chunk_size: usize) -> (r: Result<SpiralChunks, &'static str>)
        requires
            self.fits(),
        ensures
            chunk_size == 0 ==> (r matches Err(e) && e@ == "Chunk size can't be zero"@),
            r matches Ok(s) ==> s.wf(),
            r matches Ok(s) ==> s.block == self && s.chunk_size == chunk_size,
            r matches Ok(s) ==> s.w == ceil_div(self.w as int, chunk_size as int),
            r matches Ok(s) ==> s.h == ceil_div(self.h as int, chunk_size as int),
            r matches Ok(s) ==> s.remaining == s.w * s.h,
            r matches Ok(s) ==> forall|k: int| 0 <= k < s.w * s.h ==> !#[trigger] s.visited@[k],
            r matches Ok(s) ==> s.x == s.w / 2 && s.y == s.h / 2,
            r is Ok <==> chunk_grid_fits(self, chunk_size as int),
    {
        if chunk_size == 0 {
            return Err("Chunk size can't be zero");
        }
        let wu = divide_round_up(self.w, chunk_size);
        let hu = divide_round_up(self.h, chunk_size);
        if wu > isize::MAX as usize {
            proof {
                assert(hu == 0 || wu * hu > isize::MAX) by (nonlinear_arith)
                    requires
                        wu > isize::MAX,
                        hu >= 0,
                ;
            }
            return Err("Width divided by block size must fit into isize");
        }
        if hu > isize::MAX as usize {
            proof {
                assert(wu == 0 || wu * hu > isize::MAX) by (nonlinear_arith)
                    requires
                        hu > isize::MAX,
                        wu >= 0,
                ;
            }
            return Err("Height divided by block size must fit into isize");
        }
        let count = match wu.checked_mul(hu) {
            Some(c) => c,
            None => {
                return Err("Chunk count must fit into isize");
            },
        };
        if count > isize::MAX as usize {
            return Err("Chunk count must fit into isize");
        }
        let w = wu as isize;
        let h = hu as isize;
        let x = w / 2;
        let y = h / 2;
        let dx = -(h - 2 * y);
        let dy = -1 - dx;
        let mut visited: Vec<bool> = Vec::new();
        while visited.len() < count
            invariant
                visited@.len() <= count,
                count_unvisited(visited@) == visited@.len(),
                forall|k: int| 0 <= k < visited@.len() ==> !#[trigger] visited@[k],
            decreases count - visited@.len(),
        {
            proof {
                assert(visited@.push(false).drop_last() =~= visited@);
            }
            visited.push(false);
        }
        Ok(
            SpiralChunks {
                block: self,
                chunk_size,
                w,
                h,
                x,
                y,
                dx,
                dy,
                segment: 2,
                segment_remaining: 1,
                remaining: count,
                visited,
            },
        )
    }

    /// Chunk `(block_x, block_y)` of the block.
    fn subblock(&self, block_x: usize, block_y: usize, chunk_size: usize) -> (r: Block)
        requires
            self.fits(),
            block_x * chunk_size < self.w,
            block_y * chunk_size < self.h,
        ensures
            r == chunk_of(*self, block_x as int, block_y as int, chunk_size as int),
    {
        let x = block_x * chunk_size;
        let y = block_y * chunk_size;
        Block {
            x: x + self.x,
            y: y + self.y,
            w: if chunk_size <= self.w - x {
                chunk_size
            } else {
                self.w - x
            },
            h: if chunk_size <= self.h - y {
                chunk_size
            } else {
                self.h - y
            },
        }
    }
}

/// Iterator over the `(x, y)` pairs of a block, x changing first.
#[derive(Clone, Copy, Debug)]
pub struct PixelCoordinates {
    pub x0: usize,
    pub x1: usize,
    pub y1: usize,
    pub x: usize,
    pub y: usize,
}

impl PixelCoordinates {
    /// While pairs remain the cursor is inside the block, whose last column
    /// is below `usize::MAX`.
    pub open spec fn wf(&self) -> bool {
        self.x <= self.x1 ==> self.x0 <= self.x && self.y <= self.y1 && self.x1 < usize::MAX
    }

    /// Number of pairs left.
    pub open spec fn spec_len(&self) -> int {
        if self.x > self.x1 {
            0
        } else {
            (self.y1 - self.y) * (self.x1 - self.x0 + 1) + (self.x1 - self.x) + 1
        }
    }

    /// The next pair: the cursor, which then moves right, to the start of the
    /// next row, or past the end.
    pub fn next(&mut self) -> (r: Option<(usize, usize)>)
        requires
            old(self).wf(),
        ensures
            final(self).wf(),
            old(self).x > old(self).x1 ==> r is None && *final(self) == *old(self),
            old(self).x <= old(self).x1 ==> {
                &&& r == Some((old(self).x, old(self).y))
                &&& final(self).x0 == old(self).x0 && final(self).x1 == old(self).x1
                    && final(self).y1 == old(self).y1
                &&& old(self).x < old(self).x1 ==> final(self).x == old(self).x + 1
                    && final(self).y == old(self).y
                &&& old(self).x == old(self).x1 && old(self).y < old(self).y1 ==> final(self).x
                    == old(self).x0 && final(self).y == old(self).y + 1
                &&& final(self).spec_len() == old(self).spec_len() - 1
            },
    {
        if self.x > self.x1 {
            return None;
        }
        let ret = (self.x, self.y);
        if self.x < self.x1 {
            self.x = self.x + 1;
        } else if self.y < self.y1 {
            self.x = self.x0;
            self.y = self.y + 1;
            proof {
                let w = old(self).x1 - old(self).x0 + 1;
                let h = old(self).y1 - old(self).y;
                assert((h - 1) * w + w == h * w) by (nonlinear_arith);
            }
        } else {
            self.x = self.x1 + 1;
            proof {
                let w = old(self).x1 - old(self).x0 + 1;
                assert(0 * w == 0) by (nonlinear_arith);
            }
        }
        Some(ret)
    }

    /// Number of pairs left.
    pub fn len(&self) -> (r: usize)
        requires
            self.wf(),
            self.spec_len() <= usize::MAX,
        ensures
            r == self.spec_len(),
    {
        if self.x > self.x1 {
            0
        } else {
            proof {
                let w = self.x1 - self.x0 + 1;
                let h = self.y1 - self.y;
                assert(h * w <= h * w + (self.x1 - self.x) + 1);
                assert(w <= h * w + w) by (nonlinear_arith)
                    requires
                        h >= 0,
                        w >= 0,
                ;
            }
            (self.y1 - self.y) * (self.x1 - self.x0 + 1) + (self.x1 - self.x) + 1
        }
    }
}

/// Number of chunks not visited yet.
pub open spec fn count_unvisited(s: Seq<bool>) -> nat
    decreases s.len(),
{
    if s.len() == 0 {
        0
    } else {
        count_unvisited(s.drop_last()) + if s.last() {
            0nat
        } else {
            1nat
        }
    }
}

proof fn lemma_visit_one(s: Seq<bool>, i: int)
    requires
        0 <= i < s.len(),
        !s[i],
    ensures
        count_unvisited(s.update(i, true)) + 1 == count_unvisited(s),
    decreases s.len(),
{
    let t = s.update(i, true);
    if i == s.len() - 1 {
        assert(t.drop_last() =~= s.drop_last());
    } else {
        assert(t.drop_last() =~= s.drop_last().update(i, true));
        lemma_visit_one(s.drop_last(), i);
    }
}

proof fn lemma_none_unvisited(s: Seq<bool>)
    requires
        forall|k: int| 0 <= k < s.len() ==> #[trigger] s[k],
    ensures
        count_unvisited(s) == 0,
    decreases s.len(),
{
    if s.len() > 0 {
        lemma_none_unvisited(s.drop_last());
    }
}

/// Iterator over the chunks of a block in spiral order, starting in the
/// middle. The chunk under the cursor is taken unless the cursor has left
/// the grid or already visited that chunk; then the first unvisited chunk in
/// row order is taken. Either way every chunk comes exactly once.
#[derive(Clone, Debug)]
pub struct SpiralChunks {
    pub block: Block,
    pub chunk_size: usize,
    pub w: isize,
    pub h: isize,
    pub x: isize,
    pub y: isize,
    pub dx: isize,
    pub dy: isize,
    pub segment: usize,
    pub segment_remaining: isize,
    pub remaining: usize,
    /// Chunk `(x, y)` is visited when entry `y * w + x` is true.
    pub visited: Vec<bool>,
}

impl SpiralChunks {
    /// The chunk grid matches the block, the step is one chunk along one
    /// axis, the current segment has a non-negative length left, and the
    /// count left is the number of chunks not visited.
    pub open spec fn wf(&self) -> bool {
        &&& self.block.fits()
        &&& self.chunk_size > 0
        &&& self.w == ceil_div(self.block.w as int, self.chunk_size as int)
        &&& self.h == ceil_div(self.block.h as int, self.chunk_size as int)
        &&& self.w * self.h <= isize::MAX
        &&& (self.dx == 0 && (self.dy == 1 || self.dy == -1)) || (self.dy == 0 && (self.dx == 1
            || self.dx == -1))
        &&& self.segment_remaining >= 0
        &&& self.visited@.len() == self.w * self.h
        &&& self.remaining == count_unvisited(self.visited@)
    }

    /// Whether `(x, y)` is a chunk of the grid.
    pub open spec fn in_grid(&self, x: int, y: int) -> bool {
        0 <= x < self.w && 0 <= y < self.h
    }

    /// Position of chunk `(x, y)` in `visited`.
    pub open spec fn cell(&self, x: int, y: int) -> int {
        y * self.w + x
    }

    /// Turns left and starts the next, possibly longer, segment. False when
    /// the segment counter would overflow.
    fn next_segment(&mut self) -> (ok: bool)
        requires
            old(self).wf(),
        ensures
            final(self).wf(),
            final(self).block == old(self).block,
            final(self).chunk_size == old(self).chunk_size,
            final(self).w == old(self).w,
            final(self).h == old(self).h,
            final(self).x == old(self).x,
            final(self).y == old(self).y,
            final(self).remaining == old(self).remaining,
            final(self).visited@ == old(self).visited@,
            ok ==> final(self).dx == old(self).dy,
            ok ==> final(self).dy == -old(self).dx,
            ok ==> final(self).segment == old(self).segment + 1,
            ok ==> final(self).segment_remaining == final(self).segment / 2,
    {
        let old_dx = self.dx;
        let seg = match self.segment.checked_add(1) {
            Some(s) => s,
            None => {
                return false;
            },
        };
        self.dx = self.dy;
        self.dy = -old_dx;
        self.segment = seg;
        self.segment_remaining = (seg / 2) as isize;
        true
    }

    /// Moves the cursor one step along the spiral, skipping the parts of it
    /// that lie outside the grid. Stops short where a step would overflow.
    fn advance(&mut self)
        requires
            old(self).wf(),
            old(self).in_grid(old(self).x as int, old(self).y as int),
        ensures
            final(self).wf(),
            final(self).block == old(self).block,
            final(self).chunk_size == old(self).chunk_size,
            final(self).w == old(self).w,
            final(self).h == old(self).h,
            final(self).remaining == old(self).remaining,
            final(self).visited@ == old(self).visited@,
    {
        if self.segment_remaining == 0 {
            if !self.next_segment() {
                return;
            }
        }
        let new_x = self.x + self.dx;
        let new_y = self.y + self.dy;
        if self.segment_remaining > 0 {
            self.segment_remaining = self.segment_remaining - 1;
        }
        if 0 <= new_x && new_x < self.w && 0 <= new_y && new_y < self.h {
            self.x = new_x;
            self.y = new_y;
        } else {
            // Outside the grid: turn at once, skip the whole next segment
            // (it lies outside too), and turn again.
            if !self.next_segment() {
                return;
            }
            let skip_x = self.segment_remaining.checked_mul(self.dx);
            let skip_y = self.segment_remaining.checked_mul(self.dy);
            if let (Some(sx), Some(sy)) = (skip_x, skip_y) {
                if let (Some(nx), Some(ny)) = (self.x.checked_add(sx), self.y.checked_add(sy)) {
                    self.x = nx;
                    self.y = ny;
                }
            }
            self.next_segment();
        }
    }

    /// Number of chunks left.
    pub fn len(&self) -> (r: usize)
        ensures
            r == self.remaining,
    {
        self.remaining
    }

    /// The next chunk: the one under the cursor when it lies in the grid and
    /// was not visited, else the first unvisited chunk in row order. While
    /// chunks remain there is one.
    pub fn next(&mut self) -> (r: Option<Block>)
        requires
            old(self).wf(),
        ensures
            final(self).wf(),
            final(self).block == old(self).block,
            final(self).chunk_size == old(self).chunk_size,
            final(self).w == old(self).w,
            final(self).h == old(self).h,
            old(self).remaining == 0 <==> r is None,
            r is None ==> final(self).visited@ == old(self).visited@,
            r is None ==> final(self).remaining == 0,
            r matches Some(b) ==> final(self).remaining == old(self).remaining - 1,
            r matches Some(b) ==> exists|cx: int, cy: int|
                {
                    &&& old(self).in_grid(cx, cy)
                    &&& !old(self).visited@[old(self).cell(cx, cy)]
                    &&& final(self).visited@ == old(self).visited@.update(
                        old(self).cell(cx, cy),
                        true,
                    )
                    &&& b == chunk_of(old(self).block, cx, cy, old(self).chunk_size as int)
                },
            r matches Some(b) ==> (old(self).in_grid(old(self).x as int, old(self).y as int)
                && !old(self).visited@[old(self).cell(old(self).x as int, old(self).y as int)]
                ==> b == chunk_of(
                old(self).block,
                old(self).x as int,
                old(self).y as int,
                old(self).chunk_size as int,
            )),
    {
        if self.remaining == 0 {
            return None;
        }
        let ghost w = self.w as int;
        let ghost h = self.h as int;
        proof {
            assert(w >= 0 && h >= 0);
            if self.visited@.len() == 0 {
                lemma_none_unvisited(self.visited@);
            }
            assert(w > 0 && h > 0) by (nonlinear_arith)
                requires
                    w * h == self.visited@.len(),
                    self.visited@.len() > 0,
                    w >= 0,
                    h >= 0,
            ;
        }
        let wu = self.w as usize;
        let mut at_cursor = false;
        if 0 <= self.x && self.x < self.w && 0 <= self.y && self.y < self.h {
            proof {
                lemma_cell_in_range(self.x as int, self.y as int, w, h);
            }
            let k = (self.y as usize) * wu + (self.x as usize);
            at_cursor = !self.visited[k];
        }
        if !at_cursor {
            let mut k: usize = 0;
            while k < self.visited.len() && self.visited[k]
                invariant
                    k <= self.visited@.len(),
                    forall|t: int| 0 <= t < k ==> #[trigger] self.visited@[t],
                decreases self.visited@.len() - k,
            {
                k = k + 1;
            }
            if k == self.visited.len() {
                proof {
                    lemma_none_unvisited(self.visited@);
                }
                self.remaining = 0;
                return None;
            }
            proof {
                vstd::arithmetic::div_mod::lemma_fundamental_div_mod(k as int, w);
                vstd::arithmetic::div_mod::lemma_mod_pos_bound(k as int, w);
                vstd::arithmetic::div_mod::lemma_div_pos_is_pos(k as int, w);
                let q = k as int / w;
                let m = k as int % w;
                assert(q < h) by (nonlinear_arith)
                    requires
                        k == w * q + m,
                        m >= 0,
                        k < w * h,
                        w > 0,
                ;
                assert(q * w + m == k) by (nonlinear_arith)
                    requires
                        k == w * q + m,
                ;
            }
            self.x = (k % wu) as isize;
            self.y = (k / wu) as isize;
        }
        let cx = self.x;
        let cy = self.y;
        proof {
            lemma_cell_in_range(cx as int, cy as int, w, h);
            lemma_below_ceil(cx as int, self.block.w as int, self.chunk_size as int);
            lemma_below_ceil(cy as int, self.block.h as int, self.chunk_size as int);
        }
        let k = (cy as usize) * wu + (cx as usize);
        let ret = self.block.subblock(cx as usize, cy as usize, self.chunk_size);
        proof {
            lemma_visit_one(self.visited@, k as int);
        }
        self.visited.set(k, true);
        self.remaining = self.remaining - 1;
        self.advance();
        proof {
            assert(old(self).in_grid(cx as int, cy as int));
        }
        Some(ret)
    }
}

proof fn lemma_cell_in_range(x: int, y: int, w: int, h: int)
    requires
        0 <= x < w,
        0 <= y < h,
    ensures
        0 <= y * w + x < w * h,
{
    assert(0 <= y * w + x < w * h) by (nonlinear_arith)
        requires
            0 <= x < w,
            0 <= y < h,
    ;
}

/// Once no chunk is left, every chunk of the grid has been visited: the
/// chunks handed out cover the grid exactly once.
pub proof fn lemma_all_chunks_visited(s: &SpiralChunks)
    requires
        s.wf(),
        s.remaining == 0,
    ensures
        forall|k: int| 0 <= k < s.w * s.h ==> #[trigger] s.visited@[k],
{
    assert forall|k: int| 0 <= k < s.w * s.h implies #[trigger] s.visited@[k] by {
        if !s.visited@[k] {
            lemma_visit_one(s.visited@, k);
        }
    }
}

} // verus!
