//! The fixed-size window of tile texture variants behind the infinite
//! scroll illusion.
//!
//! A `TileBuffer` is a `width` by `height` grid of cells, each holding a
//! texture variant index in `[0, variant_count)`. Scrolling by whole
//! tiles recycles the grid in place: every cell takes over the variant of
//! its upstream neighbor, and cells whose upstream neighbor left the grid
//! are reseeded with a fresh random variant.

use vstd::arithmetic::div_mod::{
    lemma_fundamental_div_mod,
    lemma_mod_division_less_than_divisor,
};
use vstd::prelude::*;

use crate::rng::random_variant;

verus! {

/// Largest accepted tile count per buffer axis.
pub const DIM_MAX: usize = 4096;

/// Why a tile-buffer configuration was rejected.
#[derive(Clone, Copy, Debug, PartialEq, Eq, Structural)]
pub enum BufferError {
    /// A dimension was zero: the window would be empty.
    ZeroDimension,
    /// A dimension was larger than `DIM_MAX`.
    TooLarge,
    /// No texture variants to draw from.
    ZeroVariants,
}

/// A rectangular grid of texture variant indices, stored row-major.
#[derive(Clone, Debug, PartialEq, Eq)]
pub struct TileBuffer {
    pub width: usize,
    pub height: usize,
    pub variant_count: u32,
    pub tiles: Vec<u32>,
}

/// The column displacement of the recycling pass for a whole-tile
/// displacement `(td_x, td_y)`: moving a tile vertically in hex space
/// shifts alternating rows by half a tile, so each vertical tile step
/// carries a `-1` column correction.
pub open spec fn adj_x(td_x: int, td_y: int) -> int {
    td_x - td_y
}

/// The row displacement of the recycling pass: one vertical tile period
/// spans two buffer rows of the row-offset layout.
pub open spec fn adj_y(td_y: int) -> int {
    2 * td_y
}

/// The state of one cell partway through the recycling scan, after `k`
/// cells have been visited: a cell still holds its original variant until
/// its final value is written, which happens when its source cell is
/// visited (for a copy) or when it is visited itself (for a reseed).
spec fn recycle_cell_ok(
    g0: TileBuffer,
    cur_tiles: Seq<u32>,
    td_x: int,
    td_y: int,
    k: int,
    x: int,
    y: int,
) -> bool {
    let sx = x - adj_x(td_x, td_y);
    let sy = y - adj_y(td_y);
    let fx = td_x > 0;
    let fy = td_y > 0;
    if g0.in_bounds(sx, sy) {
        if visit_index(fx, fy, g0.width as int, g0.height as int, sx, sy) < k {
            cur_tiles[g0.idx(x, y)] == g0.cell(sx, sy)
        } else {
            cur_tiles[g0.idx(x, y)] == g0.cell(x, y)
        }
    } else {
        if visit_index(fx, fy, g0.width as int, g0.height as int, x, y) < k {
            cur_tiles[g0.idx(x, y)] < g0.variant_count
        } else {
            cur_tiles[g0.idx(x, y)] == g0.cell(x, y)
        }
    }
}

/// One step of the recycling scan preserves the per-cell account: after
/// the visited cell `(x, y)` has copied its variant to its target and,
/// when its own source lies outside the window, been reseeded, every cell
/// is accounted for with one more step done.
proof fn lemma_recycle_step_cell(
    g0: TileBuffer,
    tiles0: Seq<u32>,
    tiles1: Seq<u32>,
    td_x: int,
    td_y: int,
    k: int,
    x: int,
    y: int,
    x2: int,
    y2: int,
)
    requires
        g0.wf(),
        !(td_x == 0 && td_y == 0),
        g0.in_bounds(x, y),
        g0.in_bounds(x2, y2),
        visit_index(td_x > 0, td_y > 0, g0.width as int, g0.height as int, x, y) == k,
        tiles0.len() == g0.width * g0.height,
        tiles1.len() == tiles0.len(),
        tiles0[g0.idx(x, y)] == g0.cell(x, y),
        recycle_cell_ok(g0, tiles0, td_x, td_y, k, x2, y2),
        g0.in_bounds(x + adj_x(td_x, td_y), y + adj_y(td_y)) ==> tiles1[g0.idx(
            x + adj_x(td_x, td_y),
            y + adj_y(td_y),
        )] == tiles0[g0.idx(x, y)],
        !g0.in_bounds(x - adj_x(td_x, td_y), y - adj_y(td_y)) ==> tiles1[g0.idx(x, y)]
            < g0.variant_count,
        forall|i: int|
            0 <= i < tiles1.len() && !(g0.in_bounds(x + adj_x(td_x, td_y), y + adj_y(td_y))
                && i == g0.idx(x + adj_x(td_x, td_y), y + adj_y(td_y))) && !(!g0.in_bounds(
                x - adj_x(td_x, td_y),
                y - adj_y(td_y),
            ) && i == g0.idx(x, y)) ==> #[trigger] tiles1[i] == tiles0[i],
    ensures
        recycle_cell_ok(g0, tiles1, td_x, td_y, k + 1, x2, y2),
{
    let big_w = g0.width as int;
    let big_h = g0.height as int;
    let big_ax = adj_x(td_x, td_y);
    let big_ay = adj_y(td_y);
    let fx = td_x > 0;
    let fy = td_y > 0;
    let sx2 = x2 - big_ax;
    let sy2 = y2 - big_ay;
    let i2 = g0.idx(x2, y2);
    lemma_row_major_index_bound(big_w, big_h, x2, y2);
    lemma_row_major_index_bound(big_w, big_h, x, y);
    if x2 == x + big_ax && y2 == y + big_ay {
        // the copy target of this step: its source is the cell just
        // visited, and it now holds that cell's previous variant
        lemma_visit_order(td_x, td_y, big_w, big_h, x2, y2);
    } else if x2 == x && y2 == y {
        if g0.in_bounds(sx2, sy2) {
            lemma_visit_order(td_x, td_y, big_w, big_h, x2, y2);
            if g0.in_bounds(x + big_ax, y + big_ay) && i2 == g0.idx(x + big_ax, y + big_ay) {
                lemma_row_major_injective(big_w, x2, y2, x + big_ax, y + big_ay);
            }
        }
    } else {
        // untouched this step: both written indices differ from this
        // cell's index, and neither branch condition of the account
        // crosses the step boundary
        if g0.in_bounds(x + big_ax, y + big_ay) && i2 == g0.idx(x + big_ax, y + big_ay) {
            lemma_row_major_injective(big_w, x2, y2, x + big_ax, y + big_ay);
        }
        if i2 == g0.idx(x, y) {
            lemma_row_major_injective(big_w, x2, y2, x, y);
        }
        if g0.in_bounds(sx2, sy2) {
            if visit_index(fx, fy, big_w, big_h, sx2, sy2) == k {
                lemma_visit_injective(fx, fy, big_w, big_h, sx2, sy2, x, y);
            }
        } else {
            if visit_index(fx, fy, big_w, big_h, x2, y2) == k {
                lemma_visit_injective(fx, fy, big_w, big_h, x2, y2, x, y);
            }
        }
    }
}

impl TileBuffer {
    pub open spec fn in_bounds(self, x: int, y: int) -> bool {
        &&& 0 <= x < self.width
        &&& 0 <= y < self.height
    }

    /// The row-major storage position of the cell `(x, y)`.
    pub open spec fn idx(self, x: int, y: int) -> int {
        y * self.width + x
    }

    /// The variant index held by the cell `(x, y)`.
    pub open spec fn cell(self, x: int, y: int) -> u32 {
        self.tiles@[self.idx(x, y)]
    }

    pub open spec fn wf(self) -> bool {
        &&& 1 <= self.width <= DIM_MAX
        &&& 1 <= self.height <= DIM_MAX
        &&& 1 <= self.variant_count
        &&& self.tiles@.len() == self.width * self.height
        &&& forall|i: int|
            0 <= i < self.tiles@.len() ==> #[trigger] self.tiles@[i] < self.variant_count
    }

    /// The two dimensions and the variant count agree with the other
    /// buffer: only the cell contents may differ.
    pub open spec fn same_shape(self, other: TileBuffer) -> bool {
        &&& self.width == other.width
        &&& self.height == other.height
        &&& self.variant_count == other.variant_count
    }

    /// Builds a buffer with every cell seeded from the random stream,
    /// rejecting a degenerate configuration.
    pub fn new_random(width: usize, height: usize, variant_count: u32, rng: &mut wyrand::WyRand)
        -> (res: Result<TileBuffer, BufferError>)
        ensures
            match res {
                Ok(b) => {
                    &&& b.wf()
                    &&& b.width == width
                    &&& b.height == height
                    &&& b.variant_count == variant_count
                },
                Err(BufferError::ZeroDimension) => width < 1 || height < 1,
                Err(BufferError::TooLarge) => {
                    &&& width >= 1
                    &&& height >= 1
                    &&& (width > DIM_MAX || height > DIM_MAX)
                },
                Err(BufferError::ZeroVariants) => {
                    &&& 1 <= width <= DIM_MAX
                    &&& 1 <= height <= DIM_MAX
                    &&& variant_count < 1
                },
            },
            res is Ok <==> {
                &&& 1 <= width <= DIM_MAX
                &&& 1 <= height <= DIM_MAX
                &&& variant_count >= 1
            },
    {
        if width < 1 || height < 1 {
            return Err(BufferError::ZeroDimension);
        }
        if width > DIM_MAX || height > DIM_MAX {
            return Err(BufferError::TooLarge);
        }
        if variant_count < 1 {
            return Err(BufferError::ZeroVariants);
        }
        proof {
            assert(width * height <= 16777216) by (nonlinear_arith)
                requires
                    1 <= width <= 4096,
                    1 <= height <= 4096,
            ;
        }
        let total: usize = width * height;
        let mut tiles: Vec<u32> = Vec::new();
        let mut k: usize = 0;
        while k < total
            invariant
                k <= total,
                total == width * height,
                variant_count >= 1,
                tiles@.len() == k,
                forall|i: int| 0 <= i < k ==> #[trigger] tiles@[i] < variant_count,
            decreases total - k,
        {
            let v = random_variant(rng, variant_count);
            tiles.push(v);
            k = k + 1;
        }
        Ok(TileBuffer { width, height, variant_count, tiles })
    }

    /// Shifts every cell's variant to its position after a whole-tile
    /// displacement of `(td_x, td_y)` hex tiles, in one in-place pass.
    ///
    /// Every cell whose upstream source `(x - adj_x, y - adj_y)` lies in
    /// the buffer takes over that source's previous variant; every cell
    /// whose source scrolled in from outside the buffer is reseeded with
    /// a fresh random variant. A displacement larger than the buffer
    /// simply reseeds everything; a zero displacement leaves the buffer
    /// unchanged.
    #[verifier::rlimit(80)]
    pub fn apply_tile_diff(&mut self, td_x: i64, td_y: i64, rng: &mut wyrand::WyRand)
        requires
            old(self).wf(),
            -0x10000000000 <= td_x <= 0x10000000000,
            -0x10000000000 <= td_y <= 0x10000000000,
        ensures
            final(self).wf(),
            final(self).same_shape(*old(self)),
            td_x == 0 && td_y == 0 ==> *final(self) == *old(self) && *final(rng) == *old(rng),
            forall|x: int, y: int| #![trigger final(self).cell(x, y)]
                old(self).in_bounds(x, y) && old(self).in_bounds(
                    x - adj_x(td_x as int, td_y as int),
                    y - adj_y(td_y as int),
                ) ==> final(self).cell(x, y) == old(self).cell(
                    x - adj_x(td_x as int, td_y as int),
                    y - adj_y(td_y as int),
                ),
    {
        let w: usize = self.width;
        let h: usize = self.height;
        let vc: u32 = self.variant_count;
        if td_x == 0 && td_y == 0 {
            return;
        }
        let fx: bool = td_x > 0;
        let fy: bool = td_y > 0;
        let adjx: i64 = td_x - td_y;
        let adjy: i64 = 2 * td_y;
        proof {
            assert(w * h <= 16777216) by (nonlinear_arith)
                requires
                    1 <= w <= 4096,
                    1 <= h <= 4096,
            ;
        }
        let total: usize = w * h;
        let mut k: usize = 0;
        while k < total
            invariant
                old(self).wf(),
                self.width == old(self).width,
                self.height == old(self).height,
                self.variant_count == old(self).variant_count,
                self.tiles@.len() == old(self).tiles@.len(),
                w == self.width,
                h == self.height,
                vc == self.variant_count,
                !(td_x == 0 && td_y == 0),
                -0x10000000000 <= td_x <= 0x10000000000,
                -0x10000000000 <= td_y <= 0x10000000000,
                fx == (td_x > 0),
                fy == (td_y > 0),
                adjx == adj_x(td_x as int, td_y as int),
                adjy == adj_y(td_y as int),
                total == w * h,
                k <= total,
                forall|x: int, y: int| #![trigger recycle_cell_ok(*old(self), self.tiles@, td_x as int, td_y as int, k as int, x, y)]
                    old(self).in_bounds(x, y) ==> recycle_cell_ok(
                        *old(self),
                        self.tiles@,
                        td_x as int,
                        td_y as int,
                        k as int,
                        x,
                        y,
                    ),
            decreases total - k,
        {
            let ghost g0 = *old(self);
            let ghost tiles0 = self.tiles@;
            let ghost big_w = w as int;
            let ghost big_h = h as int;
            let ghost big_ax = adjx as int;
            let ghost big_ay = adjy as int;
            let y_it: usize = k / w;
            let x_it: usize = k % w;
            proof {
                lemma_mod_division_less_than_divisor(k as int, w as int);
                lemma_fundamental_div_mod(k as int, w as int);
                assert(y_it < h && k == y_it * w + x_it) by (nonlinear_arith)
                    requires
                        k == w * y_it + x_it,
                        0 <= x_it,
                        (k as int) < w * h,
                        w >= 1,
                        0 <= y_it,
                ;
            }
            let y: usize = if fy {
                h - 1 - y_it
            } else {
                y_it
            };
            let x: usize = if fx {
                w - 1 - x_it
            } else {
                x_it
            };
            let ghost big_x = x as int;
            let ghost big_y = y as int;
            proof {
                assert(visit_index(fx, fy, big_w, big_h, big_x, big_y) == k);
                lemma_row_major_index_bound(big_w, big_h, big_x, big_y);
                assert(recycle_cell_ok(g0, tiles0, td_x as int, td_y as int, k as int, big_x, big_y));
                if g0.in_bounds(big_x - big_ax, big_y - big_ay) {
                    lemma_visit_order(td_x as int, td_y as int, big_w, big_h, big_x, big_y);
                }
                assert(tiles0[g0.idx(big_x, big_y)] == g0.cell(big_x, big_y));
            }
            let cur: u32 = self.tiles[y * w + x];
            let rx: i64 = x as i64 + adjx;
            let ry: i64 = y as i64 + adjy;
            if 0 <= rx && rx < w as i64 && 0 <= ry && ry < h as i64 {
                proof {
                    lemma_row_major_index_bound(big_w, big_h, rx as int, ry as int);
                }
                let ridx: usize = (ry as usize) * w + (rx as usize);
                self.tiles[ridx] = cur;
            }
            let sx: i64 = x as i64 - adjx;
            let sy: i64 = y as i64 - adjy;
            if sx < 0 || sx >= w as i64 || sy < 0 || sy >= h as i64 {
                let v: u32 = random_variant(rng, vc);
                self.tiles[y * w + x] = v;
            }
            proof {
                let td_xi = td_x as int;
                let td_yi = td_y as int;
                if g0.in_bounds(big_x + big_ax, big_y + big_ay) && !g0.in_bounds(
                    big_x - big_ax,
                    big_y - big_ay,
                ) && g0.idx(big_x + big_ax, big_y + big_ay) == g0.idx(big_x, big_y) {
                    lemma_row_major_injective(
                        big_w,
                        big_x + big_ax,
                        big_y + big_ay,
                        big_x,
                        big_y,
                    );
                }
                assert forall|x2: int, y2: int|
                    g0.in_bounds(x2, y2) implies recycle_cell_ok(
                        g0,
                        self.tiles@,
                        td_xi,
                        td_yi,
                        k as int + 1,
                        x2,
                        y2,
                    ) by {
                    assert(recycle_cell_ok(g0, tiles0, td_xi, td_yi, k as int, x2, y2));
                    lemma_recycle_step_cell(
                        g0,
                        tiles0,
                        self.tiles@,
                        td_xi,
                        td_yi,
                        k as int,
                        big_x,
                        big_y,
                        x2,
                        y2,
                    );
                }
            }
            k = k + 1;
        }
        proof {
            let td_xi = td_x as int;
            let td_yi = td_y as int;
            let g0 = *old(self);
            let big_w = w as int;
            let big_h = h as int;
            assert forall|x: int, y: int|
                g0.in_bounds(x, y) && g0.in_bounds(
                    x - adj_x(td_xi, td_yi),
                    y - adj_y(td_yi),
                ) implies self.cell(x, y) == g0.cell(
                x - adj_x(td_xi, td_yi),
                y - adj_y(td_yi),
            ) by {
                assert(recycle_cell_ok(g0, self.tiles@, td_xi, td_yi, total as int, x, y));
                lemma_visit_in_range(fx, fy, big_w, big_h, x - adj_x(td_xi, td_yi), y - adj_y(td_yi));
            }
            assert forall|i: int| 0 <= i < self.tiles@.len() implies self.tiles@[i] < vc by {
                lemma_mod_division_less_than_divisor(i, big_w);
                lemma_fundamental_div_mod(i, big_w);
                let x = i % big_w;
                let y = i / big_w;
                assert(0 <= y && y < big_h && i == y * big_w + x) by (nonlinear_arith)
                    requires
                        i == big_w * y + x,
                        0 <= x < big_w,
                        0 <= i < big_w * big_h,
                        big_w >= 1,
                ;
                assert(g0.idx(x, y) == i);
                assert(recycle_cell_ok(g0, self.tiles@, td_xi, td_yi, total as int, x, y));
                lemma_visit_in_range(fx, fy, big_w, big_h, x, y);
                if g0.in_bounds(x - adj_x(td_xi, td_yi), y - adj_y(td_yi)) {
                    lemma_visit_in_range(
                        fx,
                        fy,
                        big_w,
                        big_h,
                        x - adj_x(td_xi, td_yi),
                        y - adj_y(td_yi),
                    );
                    lemma_row_major_index_bound(
                        big_w,
                        big_h,
                        x - adj_x(td_xi, td_yi),
                        y - adj_y(td_yi),
                    );
                    assert(self.tiles@[i] == g0.cell(
                        x - adj_x(td_xi, td_yi),
                        y - adj_y(td_yi),
                    ));
                }
            }
        }
    }

    /// Reads the variant index of the cell `(x, y)`.
    pub fn get(&self, x: usize, y: usize) -> (v: u32)
        requires
            self.wf(),
            x < self.width,
            y < self.height,
        ensures
            v == self.cell(x as int, y as int),
            v < self.variant_count,
    {
        proof {
            lemma_row_major_index_bound(self.width as int, self.height as int, x as int, y as int);
        }
        self.tiles[y * self.width + x]
    }
}

/// The position of coordinate `i` in a scan over `n` positions that may
/// run in reverse.
pub open spec fn flip_pos(flip: bool, n: int, i: int) -> int {
    if flip {
        n - 1 - i
    } else {
        i
    }
}

/// The step of the recycling scan at which the cell `(x, y)` is visited:
/// each axis runs in reverse exactly when the displacement along it is
/// positive, so that a cell is always visited before the cell it copies
/// from.
pub open spec fn visit_index(flip_x: bool, flip_y: bool, w: int, h: int, x: int, y: int) -> int {
    flip_pos(flip_y, h, y) * w + flip_pos(flip_x, w, x)
}

/// A cell is visited before its source cell: the scan directions chosen
/// from the signs of the tile displacement visit every copy target before
/// the cell it reads, so one in-place pass never reads an overwritten
/// value.
proof fn lemma_visit_order(td_x: int, td_y: int, w: int, h: int, x: int, y: int)
    requires
        1 <= w,
        1 <= h,
        !(td_x == 0 && td_y == 0),
        0 <= x < w,
        0 <= y < h,
        0 <= x - adj_x(td_x, td_y) < w,
        0 <= y - adj_y(td_y) < h,
    ensures
        visit_index(td_x > 0, td_y > 0, w, h, x, y) < visit_index(
            td_x > 0,
            td_y > 0,
            w,
            h,
            x - adj_x(td_x, td_y),
            y - adj_y(td_y),
        ),
{
    let fx = td_x > 0;
    let fy = td_y > 0;
    let sx = x - adj_x(td_x, td_y);
    let sy = y - adj_y(td_y);
    let iy = flip_pos(fy, h, y);
    let isy = flip_pos(fy, h, sy);
    let ix = flip_pos(fx, w, x);
    let isx = flip_pos(fx, w, sx);
    if td_y != 0 {
        assert(iy + 1 <= isy);
        assert(iy * w + ix < isy * w + isx) by (nonlinear_arith)
            requires
                iy + 1 <= isy,
                0 <= ix < w,
                0 <= isx,
                1 <= w,
        ;
    } else {
        assert(iy == isy);
        assert(ix < isx);
    }
}

/// Two in-bounds cells with the same row-major index are the same cell.
proof fn lemma_row_major_injective(w: int, x1: int, y1: int, x2: int, y2: int)
    requires
        1 <= w,
        0 <= x1 < w,
        0 <= x2 < w,
        y1 * w + x1 == y2 * w + x2,
    ensures
        x1 == x2,
        y1 == y2,
{
    assert(y1 == y2) by (nonlinear_arith)
        requires
            1 <= w,
            0 <= x1 < w,
            0 <= x2 < w,
            y1 * w + x1 == y2 * w + x2,
    ;
}

/// Two in-bounds cells visited at the same scan step are the same cell.
proof fn lemma_visit_injective(
    flip_x: bool,
    flip_y: bool,
    w: int,
    h: int,
    x1: int,
    y1: int,
    x2: int,
    y2: int,
)
    requires
        1 <= w,
        1 <= h,
        0 <= x1 < w,
        0 <= y1 < h,
        0 <= x2 < w,
        0 <= y2 < h,
        visit_index(flip_x, flip_y, w, h, x1, y1) == visit_index(flip_x, flip_y, w, h, x2, y2),
    ensures
        x1 == x2,
        y1 == y2,
{
    lemma_row_major_injective(
        w,
        flip_pos(flip_x, w, x1),
        flip_pos(flip_y, h, y1),
        flip_pos(flip_x, w, x2),
        flip_pos(flip_y, h, y2),
    );
}

/// The scan step of an in-bounds cell lies below the cell count.
proof fn lemma_visit_in_range(flip_x: bool, flip_y: bool, w: int, h: int, x: int, y: int)
    requires
        1 <= w,
        1 <= h,
        0 <= x < w,
        0 <= y < h,
    ensures
        0 <= visit_index(flip_x, flip_y, w, h, x, y) < w * h,
{
    let ix = flip_pos(flip_x, w, x);
    let iy = flip_pos(flip_y, h, y);
    assert(0 <= iy * w + ix < w * h) by (nonlinear_arith)
        requires
            1 <= w,
            0 <= ix < w,
            0 <= iy <= h - 1,
    ;
}

/// A row-major index within the grid stays below the grid size.
proof fn lemma_row_major_index_bound(w: int, h: int, x: int, y: int)
    requires
        1 <= w <= DIM_MAX,
        1 <= h <= DIM_MAX,
        0 <= x < w,
        0 <= y < h,
    ensures
        0 <= y * w + x < h * w,
        y * w + x < w * h,
        h * w <= 16777216,
{
    assert(0 <= y * w + x < h * w && y * w + x < w * h && h * w <= 16777216)
        by (nonlinear_arith)
        requires
            1 <= w <= 4096,
            1 <= h <= 4096,
            0 <= x < w,
            0 <= y <= h - 1,
    ;
}

} // verus!
