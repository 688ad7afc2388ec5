//! Screen blocks: emptiness, containment, pixel iteration, and the division
//! of an image into tiles in a key-driven order.

use vstd::prelude::*;

use crate::geometry::{AABB, ScreenPoint, ScreenSize};

verus! {

/// A half-open rectangle of pixels, `min` inclusive and `max` exclusive.
pub type ScreenBlock = AABB<ScreenPoint>;

/// Whether a block holds no pixel.
pub open spec fn block_is_empty(b: ScreenBlock) -> bool {
    !(b.min.x < b.max.x && b.min.y < b.max.y)
}

/// Whether a pixel lies in a block.
pub open spec fn block_contains(b: ScreenBlock, p: ScreenPoint) -> bool {
    b.min.x <= p.x < b.max.x && b.min.y <= p.y < b.max.y
}

impl AABB<ScreenPoint> {
    /// A block at the origin with the given size.
    pub fn from_size(size: ScreenSize) -> (r: ScreenBlock)
        ensures
            r.min.x == 0 && r.min.y == 0,
            r.max.x == size.x,
            r.max.y == size.y,
    {
        AABB { min: ScreenPoint::origin(), max: ScreenPoint::new(size.x, size.y) }
    }

    /// True when the block holds no pixel.
    pub fn is_empty(&self) -> (r: bool)
        ensures
            r == block_is_empty(*self),
    {
        !(self.min.x < self.max.x && self.min.y < self.max.y)
    }

    /// Number of pixels in the block.
    pub fn area(&self) -> (r: u32)
        requires
            !block_is_empty(*self) ==> (self.max.x - self.min.x) * (self.max.y - self.min.y)
                <= u32::MAX,
        ensures
            block_is_empty(*self) ==> r == 0,
            !block_is_empty(*self) ==> r == (self.max.x - self.min.x) * (self.max.y
                - self.min.y),
    {
        if self.is_empty() {
            0
        } else {
            (self.max.x - self.min.x) * (self.max.y - self.min.y)
        }
    }

    /// Horizontal extent of the block.
    pub fn width(&self) -> (r: u32)
        requires
            self.min.x <= self.max.x,
        ensures
            r == self.max.x - self.min.x,
    {
        self.max.x - self.min.x
    }

    /// Vertical extent of the block.
    pub fn height(&self) -> (r: u32)
        requires
            self.min.y <= self.max.y,
        ensures
            r == self.max.y - self.min.y,
    {
        self.max.y - self.min.y
    }

    /// The middle of the block, rounded down.
    pub fn center(&self) -> (r: ScreenPoint)
        ensures
            r.x == (self.min.x + self.max.x) / 2,
            r.y == (self.min.y + self.max.y) / 2,
    {
        let x = ((self.min.x as u64 + self.max.x as u64) / 2) as u32;
        let y = ((self.min.y as u64 + self.max.y as u64) / 2) as u32;
        ScreenPoint::new(x, y)
    }

    /// True when `p` lies in the block.
    pub fn contains(&self, p: &ScreenPoint) -> (r: bool)
        ensures
            r == block_contains(*self, *p),
    {
        p.x >= self.min.x && p.y >= self.min.y && p.x < self.max.x && p.y < self.max.y
    }

    /// Iterator over the pixels of the block, row by row (x changes first).
    pub fn internal_points(&self) -> (r: InternalPoints)
        ensures
            r.wf(),
            block_is_empty(*self) ==> r.spec_len() == 0,
            !block_is_empty(*self) ==> r.min_x == self.min.x && r.max == self.max && r.cursor
                == self.min,
            !block_is_empty(*self) ==> r.spec_len() == (self.max.x - self.min.x) * (
            self.max.y - self.min.y),
    {
        if self.is_empty() {
            InternalPoints::empty()
        } else {
            let r = InternalPoints { min_x: self.min.x, max: self.max, cursor: self.min };
            assert(r.spec_len() == (self.max.y - self.min.y - 1) * (self.max.x - self.min.x) + (
            self.max.x - self.min.x));
            assert((self.max.y - self.min.y - 1) * (self.max.x - self.min.x) + (self.max.x
                - self.min.x) == (self.max.x - self.min.x) * (self.max.y - self.min.y))
                by (nonlinear_arith);
            r
        }
    }

    /// The tiles of at most `tile_size` by `tile_size` pixels that cut the
    /// block into a grid, row by row, clipped at the right and bottom edges.
    pub fn tile_grid(&self, tile_size: u32) -> (r: Vec<ScreenBlock>)
        requires
            tile_size > 0,
        ensures
            block_is_empty(*self) ==> r@.len() == 0,
            !block_is_empty(*self) ==> r@ == grid_tiles(*self, tile_size as int),
    {
        if self.is_empty() {
            return Vec::new();
        }
        let xs = divide_range(self.min.x, self.max.x, tile_size);
        let ys = divide_range(self.min.y, self.max.y, tile_size);
        let ghost nx = xs@.len() as int;
        let ghost ny = ys@.len() as int;
        let ghost g = grid_tiles(*self, tile_size as int);
        assert(nx == tile_count(self.max.x - self.min.x, tile_size as int));
        proof {
            lemma_range_piece_hit(self.min.x as int, self.max.x as int, tile_size as int, self.min.x as int, 0);
        }
        let mut tiles: Vec<ScreenBlock> = Vec::new();
        let mut j: usize = 0;
        while j < ys.len()
            invariant
                0 <= j <= ny,
                nx >= 1,
                xs@.len() == nx,
                ys@.len() == ny,
                tiles@.len() == j * nx,
                g.len() == nx * ny,
                nx == grid_columns(*self, tile_size as int),
                forall|k: int| 0 <= k < tiles@.len() ==> #[trigger] tiles@[k] == g[k],
                forall|i: int| 0 <= i < nx ==> #[trigger] xs@[i] == range_piece(self.min.x as int, self.max.x as int, tile_size as int, i),
                forall|i: int| 0 <= i < ny ==> #[trigger] ys@[i] == range_piece(self.min.y as int, self.max.y as int, tile_size as int, i),
                g == grid_tiles(*self, tile_size as int),
            decreases ys.len() - j,
        {
            let mut i: usize = 0;
            while i < xs.len()
                invariant
                    0 <= j < ny,
                    0 <= i <= nx,
                    xs@.len() == nx,
                    ys@.len() == ny,
                    tiles@.len() == j * nx + i,
                    g.len() == nx * ny,
                nx == grid_columns(*self, tile_size as int),
                    forall|k: int| 0 <= k < tiles@.len() ==> #[trigger] tiles@[k] == g[k],
                    forall|i: int| 0 <= i < nx ==> #[trigger] xs@[i] == range_piece(self.min.x as int, self.max.x as int, tile_size as int, i),
                    forall|i: int| 0 <= i < ny ==> #[trigger] ys@[i] == range_piece(self.min.y as int, self.max.y as int, tile_size as int, i),
                    g == grid_tiles(*self, tile_size as int),
                decreases xs.len() - i,
            {
                let (x0, x1) = xs[i];
                let (y0, y1) = ys[j];
                let t = AABB { min: ScreenPoint::new(x0, y0), max: ScreenPoint::new(x1, y1) };
                proof {
                    let k = j * nx + i;
                    lemma_grid_index(k, nx, i as int, j as int);
                    assert(k < nx * ny) by (nonlinear_arith)
                        requires
                            k == j * nx + i,
                            j < ny,
                            i < nx,
                    ;
                }
                tiles.push(t);
                proof {
                    let k = j * nx + i;
                    assert(g[k] == grid_tile(*self, tile_size as int, i as int, j as int));
                    assert(tiles@[k] == g[k]);
                }
                i = i + 1;
            }
            proof {
                assert((j + 1) * nx == j * nx + nx) by (nonlinear_arith);
            }
            j = j + 1;
        }
        proof {
            vstd::arithmetic::mul::lemma_mul_is_commutative(nx, ny);
            assert(tiles@ =~= g);
        }
        tiles
    }

    /// The tiles of `tile_grid`, reordered by increasing key; tiles with equal
    /// keys keep their grid order. `keys` holds one key per grid tile, in grid
    /// order.
    pub fn tile_ordering(&self, tile_size: u32, keys: &Vec<u32>) -> (r: Vec<ScreenBlock>)
        requires
            tile_size > 0,
            block_is_empty(*self) || keys@.len() == grid_tiles(*self, tile_size as int).len(),
        ensures
            covers_exactly_once(*self, r@),
            block_is_empty(*self) ==> r@.len() == 0,
            !block_is_empty(*self) ==> exists|order: Seq<usize>|
                is_key_order(keys@, order) && r@.len() == order.len() && forall|m: int|
                    0 <= m < order.len() ==> #[trigger] r@[m] == grid_tiles(
                        *self,
                        tile_size as int,
                    )[order[m] as int],
    {
        let grid = self.tile_grid(tile_size);
        if self.is_empty() {
            return Vec::new();
        }
        let order = sort_order(keys);
        let n = order.len();
        let mut r: Vec<ScreenBlock> = Vec::new();
        let mut m: usize = 0;
        while m < order.len()
            invariant
                m <= order@.len(),
                order@.len() == grid@.len(),
                n == order@.len(),
                forall|t: int| 0 <= t < order@.len() ==> #[trigger] order@[t] < grid@.len(),
                r@.len() == m,
                forall|t: int| 0 <= t < m ==> #[trigger] r@[t] == grid@[order@[t] as int],
            decreases order.len() - m,
        {
            r.push(grid[order[m]]);
            m = m + 1;
        }
        proof {
            lemma_grid_covers(*self, tile_size as int);
            lemma_reordered_cover(*self, grid@, order@, r@, keys@);
        }
        r
    }
}

/// Number of pieces of at most `size` that cut a range of length `total`.
pub open spec fn tile_count(total: int, size: int) -> int {
    total / size + if (total / size) * size != total {
        1int
    } else {
        0int
    }
}

/// Piece `i` of the range `start..end` cut every `size`: `(start + i * size,
/// min(end, start + (i + 1) * size))`.
pub open spec fn range_piece(start: int, end: int, size: int, i: int) -> (u32, u32) {
    let lo = start + i * size;
    let hi = if end - lo < size {
        end
    } else {
        lo + size
    };
    (lo as u32, hi as u32)
}

/// Cuts `start..end` into consecutive pieces of `tile_size`, the last one
/// clipped at `end`.
pub fn divide_range(start: u32, end: u32, tile_size: u32) -> (r: Vec<(u32, u32)>)
    requires
        start <= end,
        tile_size > 0,
    ensures
        r@.len() == tile_count(end - start, tile_size as int),
        forall|i: int|
            0 <= i < r@.len() ==> #[trigger] r@[i] == range_piece(
                start as int,
                end as int,
                tile_size as int,
                i,
            ),
{
    let total = end - start;
    let full_tiles = total / tile_size;
    proof {
        assert(full_tiles * tile_size <= total) by (nonlinear_arith)
            requires
                full_tiles == total / tile_size,
                tile_size > 0,
        ;
        assert(full_tiles * tile_size != total ==> full_tiles < total) by (nonlinear_arith)
            requires
                full_tiles * tile_size <= total,
                tile_size > 0,
                full_tiles >= 0,
        ;
    }
    let n = full_tiles + if full_tiles * tile_size != total {
        1u32
    } else {
        0u32
    };
    proof {
        assert(full_tiles * tile_size <= total) by (nonlinear_arith)
            requires
                full_tiles == total / tile_size,
                tile_size > 0,
        ;
    }
    let mut r: Vec<(u32, u32)> = Vec::new();
    let mut i: u32 = 0;
    while i < n
        invariant
            i <= n,
            n == tile_count(total as int, tile_size as int),
            full_tiles == total / tile_size,
            full_tiles * tile_size <= total,
            total == end - start,
            tile_size > 0,
            r@.len() == i,
            forall|k: int|
                0 <= k < i ==> #[trigger] r@[k] == range_piece(
                    start as int,
                    end as int,
                    tile_size as int,
                    k,
                ),
        decreases n - i,
    {
        proof {
            assert(i * tile_size < total) by (nonlinear_arith)
                requires
                    i < n,
                    n == full_tiles + (if full_tiles * tile_size != total {
                        1int
                    } else {
                        0int
                    }),
                    full_tiles * tile_size <= total,
                    tile_size > 0,
            ;
        }
        let tile_start = start + i * tile_size;
        let tile_end = if end - tile_start < tile_size {
            end
        } else {
            tile_start + tile_size
        };
        r.push((tile_start, tile_end));
        i = i + 1;
    }
    r
}

/// Tile `(i, j)` of the grid over a block: column piece `i`, row piece `j`.
pub open spec fn grid_tile(b: ScreenBlock, size: int, i: int, j: int) -> ScreenBlock {
    let (x0, x1) = range_piece(b.min.x as int, b.max.x as int, size, i);
    let (y0, y1) = range_piece(b.min.y as int, b.max.y as int, size, j);
    AABB { min: ScreenPoint { x: x0, y: y0 }, max: ScreenPoint { x: x1, y: y1 } }
}

/// Columns of the tile grid over a block.
pub open spec fn grid_columns(b: ScreenBlock, size: int) -> int {
    tile_count(b.max.x - b.min.x, size)
}

/// Rows of the tile grid over a block.
pub open spec fn grid_rows(b: ScreenBlock, size: int) -> int {
    tile_count(b.max.y - b.min.y, size)
}

/// All tiles of the grid over a block, row by row.
pub open spec fn grid_tiles(b: ScreenBlock, size: int) -> Seq<ScreenBlock> {
    let nx = grid_columns(b, size);
    Seq::new(
        (nx * grid_rows(b, size)) as nat,
        |k: int| grid_tile(b, size, k % nx, k / nx),
    )
}

/// Tiles lie inside the block, and every pixel of the block lies in exactly
/// one tile.
pub open spec fn covers_exactly_once(b: ScreenBlock, tiles: Seq<ScreenBlock>) -> bool {
    &&& forall|k: int, p: ScreenPoint|
        0 <= k < tiles.len() && #[trigger] block_contains(tiles[k], p) ==> block_contains(b, p)
    &&& forall|p: ScreenPoint|
        #[trigger] block_contains(b, p) ==> exists|k: int|
            0 <= k < tiles.len() && #[trigger] block_contains(tiles[k], p)
    &&& forall|k1: int, k2: int, p: ScreenPoint|
        0 <= k1 < tiles.len() && 0 <= k2 < tiles.len() && #[trigger] block_contains(tiles[k1], p)
            && #[trigger] block_contains(tiles[k2], p) ==> k1 == k2
}

/// `order` lists every index of `keys` once, by increasing key, equal keys by
/// increasing index.
pub open spec fn is_key_order(keys: Seq<u32>, order: Seq<usize>) -> bool {
    &&& order.len() == keys.len()
    &&& forall|m: int| 0 <= m < order.len() ==> #[trigger] order[m] < keys.len()
    &&& forall|m1: int, m2: int|
        0 <= m1 < m2 < order.len() ==> key_before(keys, #[trigger] order[m1] as int, #[trigger] order[m2] as int)
    &&& forall|j: usize| j < keys.len() ==> #[trigger] order.contains(j)
}

/// Index `a` goes before index `b`: a smaller key, or an equal key and a
/// smaller index.
pub open spec fn key_before(keys: Seq<u32>, a: int, b: int) -> bool {
    keys[a] < keys[b] || (keys[a] == keys[b] && a < b)
}

proof fn lemma_grid_index(k: int, nx: int, i: int, j: int)
    requires
        nx > 0,
        0 <= i < nx,
        j >= 0,
        k == j * nx + i,
    ensures
        k % nx == i,
        k / nx == j,
{
    vstd::arithmetic::div_mod::lemma_fundamental_div_mod_converse(k, nx, j, i);
}

/// The pieces of a range cover it exactly: a position lies in piece `i`
/// exactly when `i` is its offset divided by the piece size.
proof fn lemma_range_piece_hit(start: int, end: int, size: int, x: int, i: int)
    requires
        0 <= start <= x < end <= u32::MAX,
        size > 0,
        0 <= i,
    ensures
        (x - start) / size < tile_count(end - start, size),
        ((range_piece(start, end, size, i).0 as int) <= x && x < (range_piece(
            start,
            end,
            size,
            i,
        ).1 as int) && i < tile_count(end - start, size)) <==> i == (x - start) / size,
{
    let d = x - start;
    let total = end - start;
    let q = d / size;
    let full = total / size;
    vstd::arithmetic::div_mod::lemma_fundamental_div_mod(d, size);
    vstd::arithmetic::div_mod::lemma_fundamental_div_mod(total, size);
    assert(q <= full) by {
        vstd::arithmetic::div_mod::lemma_div_is_ordered(d, total, size);
    }
    assert(q < tile_count(total, size)) by (nonlinear_arith)
        requires
            q <= full,
            d < total,
            q * size <= d,
            full * size <= total,
            tile_count(total, size) == full + (if full * size != total {
                1int
            } else {
                0int
            }),
            size > 0,
    ;
    let lo = start + i * size;
    if i == q {
        assert(q * size <= d < q * size + size) by (nonlinear_arith)
            requires
                d == size * q + d % size,
                0 <= d % size < size,
        ;
        assert(i * size == q * size);
        assert(lo <= x);
        assert(lo as u32 == lo);
        let hi = range_piece(start, end, size, i).1 as int;
        assert(x < hi);
        assert(i < tile_count(end - start, size));
    } else {
        let hi = range_piece(start, end, size, i).1 as int;
        if i < q {
            assert(i * size + size <= q * size) by (nonlinear_arith)
                requires
                    i < q,
                    size > 0,
            ;
            assert(q * size <= d) by (nonlinear_arith)
                requires
                    d == size * q + d % size,
                    0 <= d % size,
            ;
            if lo <= u32::MAX && lo + size <= u32::MAX {
                assert(hi <= lo + size);
                assert(!(x < hi));
            } else {
                assert(lo + size <= x);
            }
        } else {
            assert(q * size + size <= i * size) by (nonlinear_arith)
                requires
                    q < i,
                    size > 0,
            ;
            assert(d < q * size + size) by (nonlinear_arith)
                requires
                    d == size * q + d % size,
                    d % size < size,
            ;
            if lo <= u32::MAX {
                assert(!(lo <= x));
            } else {
                assert(i * size >= total) by (nonlinear_arith)
                    requires
                        start + i * size > u32::MAX,
                        end <= u32::MAX,
                        total == end - start,
                ;
                assert(i >= tile_count(total, size)) by (nonlinear_arith)
                    requires
                        i * size >= total,
                        full * size <= total,
                        total < full * size + size,
                        tile_count(total, size) == full + (if full * size != total {
                            1int
                        } else {
                            0int
                        }),
                        size > 0,
                        i >= 0,
                ;
            }
        }
    }
}

proof fn lemma_grid_coords(k: int, nx: int, ny: int)
    requires
        0 <= k < nx * ny,
        nx > 0,
        ny > 0,
    ensures
        0 <= k % nx < nx,
        0 <= k / nx < ny,
        k == nx * (k / nx) + k % nx,
{
    vstd::arithmetic::div_mod::lemma_fundamental_div_mod(k, nx);
    vstd::arithmetic::div_mod::lemma_mod_pos_bound(k, nx);
    vstd::arithmetic::div_mod::lemma_div_pos_is_pos(k, nx);
    let q = k / nx;
    let r = k % nx;
    assert(q < ny) by (nonlinear_arith)
        requires
            k == nx * q + r,
            r >= 0,
            k < nx * ny,
            nx > 0,
    ;
}

/// Every piece of a range lies inside the range.
proof fn lemma_range_piece_inside(start: int, end: int, size: int, i: int, x: int)
    requires
        0 <= start < end <= u32::MAX,
        size > 0,
        0 <= i < tile_count(end - start, size),
        (range_piece(start, end, size, i).0 as int) <= x < (range_piece(start, end, size, i).1 as int),
    ensures
        start <= x < end,
{
    let total = end - start;
    let full = total / size;
    vstd::arithmetic::div_mod::lemma_fundamental_div_mod(total, size);
    assert(i * size < total) by (nonlinear_arith)
        requires
            i < full + (if full * size != total {
                1int
            } else {
                0int
            }),
            total == size * full + total % size,
            0 <= total % size < size,
            i >= 0,
            size > 0,
    ;
    assert(i * size >= 0) by (nonlinear_arith)
        requires
            i >= 0,
            size > 0,
    ;
}

/// The tile grid of a non-empty block covers it exactly once.
pub proof fn lemma_grid_covers(b: ScreenBlock, size: int)
    requires
        size > 0,
    ensures
        !block_is_empty(b) ==> covers_exactly_once(b, grid_tiles(b, size)),
{
    if block_is_empty(b) {
        return;
    }
    let g = grid_tiles(b, size);
    let nx = grid_columns(b, size);
    let ny = grid_rows(b, size);
    lemma_range_piece_hit(b.min.x as int, b.max.x as int, size, b.min.x as int, 0);
    lemma_range_piece_hit(b.min.y as int, b.max.y as int, size, b.min.y as int, 0);
    assert(nx >= 1 && ny >= 1);
    assert(nx * ny >= 0) by (nonlinear_arith)
        requires
            nx >= 1,
            ny >= 1,
    ;
    assert forall|k: int, p: ScreenPoint|
        0 <= k < g.len() && #[trigger] block_contains(g[k], p) implies block_contains(b, p) by {
        let i = k % nx;
        let j = k / nx;
        lemma_grid_coords(k, nx, ny);
        lemma_range_piece_inside(b.min.x as int, b.max.x as int, size, i, p.x as int);
        lemma_range_piece_inside(b.min.y as int, b.max.y as int, size, j, p.y as int);
    }
    assert forall|p: ScreenPoint| #[trigger] block_contains(b, p) implies exists|k: int|
        0 <= k < g.len() && #[trigger] block_contains(g[k], p) by {
        let i = (p.x - b.min.x) / size;
        let j = (p.y - b.min.y) / size;
        lemma_range_piece_hit(b.min.x as int, b.max.x as int, size, p.x as int, i);
        lemma_range_piece_hit(b.min.y as int, b.max.y as int, size, p.y as int, j);
        vstd::arithmetic::div_mod::lemma_div_pos_is_pos(p.x - b.min.x, size);
        vstd::arithmetic::div_mod::lemma_div_pos_is_pos(p.y - b.min.y, size);
        let k = j * nx + i;
        lemma_grid_index(k, nx, i, j);
        assert(k < nx * ny) by (nonlinear_arith)
            requires
                k == j * nx + i,
                0 <= j < ny,
                0 <= i < nx,
        ;
        assert(0 <= k) by (nonlinear_arith)
            requires
                k == j * nx + i,
                0 <= j,
                0 <= i,
                nx >= 1,
        ;
        assert(g[k] == grid_tile(b, size, i, j));
        assert(block_contains(g[k], p));
    }
    assert forall|k1: int, k2: int, p: ScreenPoint|
        0 <= k1 < g.len() && 0 <= k2 < g.len() && #[trigger] block_contains(g[k1], p)
            && #[trigger] block_contains(g[k2], p) implies k1 == k2 by {
        lemma_grid_coords(k1, nx, ny);
        lemma_grid_coords(k2, nx, ny);
        assert(g[k1] == grid_tile(b, size, k1 % nx, k1 / nx));
        assert(g[k2] == grid_tile(b, size, k2 % nx, k2 / nx));
        lemma_range_piece_hit(b.min.x as int, b.max.x as int, size, p.x as int, k1 % nx);
        lemma_range_piece_hit(b.min.x as int, b.max.x as int, size, p.x as int, k2 % nx);
        lemma_range_piece_hit(b.min.y as int, b.max.y as int, size, p.y as int, k1 / nx);
        lemma_range_piece_hit(b.min.y as int, b.max.y as int, size, p.y as int, k2 / nx);
    }
}

/// Reordering an exact cover by a key order keeps it an exact cover.
proof fn lemma_reordered_cover(
    b: ScreenBlock,
    grid: Seq<ScreenBlock>,
    order: Seq<usize>,
    r: Seq<ScreenBlock>,
    keys: Seq<u32>,
)
    requires
        covers_exactly_once(b, grid),
        is_key_order(keys, order),
        keys.len() == grid.len(),
        grid.len() <= usize::MAX,
        r.len() == order.len(),
        forall|t: int| 0 <= t < order.len() ==> #[trigger] r[t] == grid[order[t] as int],
    ensures
        covers_exactly_once(b, r),
{
    assert forall|k: int, p: ScreenPoint|
        0 <= k < r.len() && #[trigger] block_contains(r[k], p) implies block_contains(b, p) by {
        assert(r[k] == grid[order[k] as int]);
        assert(block_contains(grid[order[k] as int], p));
    }
    assert forall|p: ScreenPoint| #[trigger] block_contains(b, p) implies exists|k: int|
        0 <= k < r.len() && #[trigger] block_contains(r[k], p) by {
        let g = choose|g: int| 0 <= g < grid.len() && #[trigger] block_contains(grid[g], p);
        assert(order.contains(g as usize));
        let m = choose|m: int| 0 <= m < order.len() && order[m] == g as usize;
        assert(r[m] == grid[g]);
        assert(block_contains(r[m], p));
    }
    assert forall|k1: int, k2: int, p: ScreenPoint|
        0 <= k1 < r.len() && 0 <= k2 < r.len() && #[trigger] block_contains(r[k1], p)
            && #[trigger] block_contains(r[k2], p) implies k1 == k2 by {
        assert(r[k1] == grid[order[k1] as int]);
        assert(r[k2] == grid[order[k2] as int]);
        assert(block_contains(grid[order[k1] as int], p));
        assert(block_contains(grid[order[k2] as int], p));
        assert(order[k1] == order[k2]);
        if k1 < k2 {
            assert(key_before(keys, order[k1] as int, order[k2] as int));
        } else if k2 < k1 {
            assert(key_before(keys, order[k2] as int, order[k1] as int));
        }
    }
}

/// The indices of `keys` by increasing key; equal keys keep their index order.
pub fn sort_order(keys: &Vec<u32>) -> (order: Vec<usize>)
    ensures
        is_key_order(keys@, order@),
{
    let n = keys.len();
    let mut order: Vec<usize> = Vec::new();
    let mut i: usize = 0;
    while i < n
        invariant
            n == keys@.len(),
            i <= n,
            order@.len() == i,
            forall|m: int| 0 <= m < order@.len() ==> #[trigger] order@[m] < i,
            forall|m1: int, m2: int|
                0 <= m1 < m2 < order@.len() ==> key_before(keys@, #[trigger] order@[m1] as int, #[trigger] order@[m2] as int),
            forall|j: usize| j < i ==> #[trigger] order@.contains(j),
        decreases n - i,
    {
        let key = keys[i];
        // Position after every entry whose key is not larger.
        let mut p: usize = order.len();
        while p > 0 && keys[order[p - 1]] > key
            invariant
                p <= order@.len(),
                n == keys@.len(),
                forall|m: int| 0 <= m < order@.len() ==> #[trigger] order@[m] < i,
                i < n,
                key == keys@[i as int],
                forall|m: int| p <= m < order@.len() ==> keys@[#[trigger] order@[m] as int] > key,
            decreases p,
        {
            p = p - 1;
        }
        let ghost old_order = order@;
        proof {
            assert forall|m: int| 0 <= m < p implies keys@[#[trigger] old_order[m] as int] <= key by {
                if p > 0 {
                    assert(keys@[old_order[p - 1] as int] <= key);
                    if m < p - 1 {
                        assert(key_before(keys@, old_order[m] as int, old_order[p - 1] as int));
                    }
                }
            }
        }
        order.insert(p, i);
        proof {
            old_order.insert_ensures(p as int, i);
            let new_order = order@;
            assert forall|m: int| 0 <= m < new_order.len() implies #[trigger] new_order[m] < i + 1 by {
                if m < p {
                } else if m > p {
                    assert(new_order[m] == old_order[m - 1]);
                }
            }
            assert forall|m1: int, m2: int|
                0 <= m1 < m2 < new_order.len() implies key_before(keys@, #[trigger] new_order[m1] as int, #[trigger] new_order[m2] as int) by {
                if m2 < p {
                } else if m2 == p {
                    assert(keys@[old_order[m1] as int] <= key);
                } else if m1 < p {
                    assert(new_order[m2] == old_order[m2 - 1]);
                    assert(keys@[old_order[m2 - 1] as int] > key);
                    assert(keys@[old_order[m1] as int] <= key);
                } else if m1 == p {
                    assert(new_order[m2] == old_order[m2 - 1]);
                    assert(keys@[old_order[m2 - 1] as int] > key);
                } else {
                    assert(new_order[m1] == old_order[m1 - 1]);
                    assert(new_order[m2] == old_order[m2 - 1]);
                    assert(key_before(keys@, old_order[m1 - 1] as int, old_order[m2 - 1] as int));
                }
            }
            assert forall|j: usize| j < i + 1 implies #[trigger] new_order.contains(j) by {
                if j == i {
                    assert(new_order[p as int] == j);
                } else {
                    assert(old_order.contains(j));
                    let m = choose|m: int| 0 <= m < old_order.len() && old_order[m] == j;
                    if m < p {
                        assert(new_order[m] == j);
                    } else {
                        assert(new_order[m + 1] == j);
                    }
                }
            }
        }
        i = i + 1;
    }
    order
}

/// Iterator over the pixels of a block, row by row.
#[derive(Clone, Copy, Debug)]
pub struct InternalPoints {
    pub min_x: u32,
    pub max: ScreenPoint,
    pub cursor: ScreenPoint,
}

impl InternalPoints {
    /// The cursor stays within the row bounds while pixels remain.
    pub open spec fn wf(&self) -> bool {
        self.cursor.y < self.max.y ==> self.min_x <= self.cursor.x < self.max.x
    }

    /// Number of pixels left.
    pub open spec fn spec_len(&self) -> int {
        if self.cursor.y >= self.max.y {
            0
        } else {
            (self.max.y - self.cursor.y - 1) * (self.max.x - self.min_x) + (self.max.x
                - self.cursor.x)
        }
    }

    /// An iterator that yields nothing.
    pub fn empty() -> (r: Self)
        ensures
            r.wf(),
            r.spec_len() == 0,
    {
        InternalPoints { min_x: 1, max: ScreenPoint::origin(), cursor: ScreenPoint::origin() }
    }

    /// The next pixel: the cursor, which then moves right, or to the start of
    /// the next row at the end of a row.
    pub fn next(&mut self) -> (r: Option<ScreenPoint>)
        requires
            old(self).wf(),
        ensures
            final(self).wf(),
            old(self).cursor.y >= old(self).max.y ==> r is None && *final(self) == *old(self),
            old(self).cursor.y < old(self).max.y ==> {
                &&& r == Some(old(self).cursor)
                &&& final(self).min_x == old(self).min_x && final(self).max == old(self).max
                &&& old(self).cursor.x + 1 < old(self).max.x ==> final(self).cursor
                    == ScreenPoint { x: (old(self).cursor.x + 1) as u32, y: old(self).cursor.y }
                &&& old(self).cursor.x + 1 >= old(self).max.x ==> final(self).cursor
                    == ScreenPoint { x: old(self).min_x, y: (old(self).cursor.y + 1) as u32 }
                &&& final(self).spec_len() == old(self).spec_len() - 1
            },
    {
        if self.cursor.y >= self.max.y {
            return None;
        }
        let ret = self.cursor;
        self.cursor.x = self.cursor.x + 1;
        if self.cursor.x >= self.max.x {
            self.cursor.x = self.min_x;
            self.cursor.y = self.cursor.y + 1;
            proof {
                let w = old(self).max.x - old(self).min_x;
                let h = old(self).max.y - old(self).cursor.y - 1;
                assert((h - 1) * w + w == h * w) by (nonlinear_arith);
                assert(h == 0 ==> h * w == 0) by (nonlinear_arith);
            }
        }
        Some(ret)
    }

    /// Number of pixels left.
    pub fn len(&self) -> (r: usize)
        requires
            self.wf(),
            self.spec_len() <= usize::MAX,
        ensures
            r == self.spec_len(),
    {
        if self.cursor.y >= self.max.y {
            0
        } else {
            let rows = (self.max.y - self.cursor.y - 1) as u64;
            let w = (self.max.x - self.min_x) as u64;
            proof {
                assert(rows * w <= 0xFFFF_FFFFu64 * 0xFFFF_FFFFu64) by (nonlinear_arith)
                    requires
                        rows <= 0xFFFF_FFFFu64,
                        w <= 0xFFFF_FFFFu64,
                ;
            }
            let whole_rows = rows * w;
            let current_row = (self.max.x - self.cursor.x) as u64;
            (whole_rows + current_row) as usize
        }
    }
}

} // verus!
