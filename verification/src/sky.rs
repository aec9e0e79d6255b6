//! The infinite-scroll state: sub-tile motion accumulation and the
//! per-tick update of the tile window.
//!
//! Every tick converts the scroll speed, given in hex units per second in
//! axial coordinates, to a pixel-space displacement through the hex
//! transform, and adds it to the accumulated offset. Whole-tile crossings
//! are split off the offset and handed to the tile buffer's recycling
//! pass; the remainder stays strictly inside one tile period per axis and
//! is what a renderer applies as the tile layer's translation.
//!
//! Fixed-point units, chosen so that a tick is exact integer arithmetic:
//! time is measured in microseconds, speed in thousandths of a hex unit
//! per second, and the stored offset in millionths of a pixel
//! (micropixels). The displacement of a tick is rounded toward negative
//! infinity to the next whole micropixel.

use vstd::arithmetic::div_mod::{
    lemma_fundamental_div_mod,
    lemma_fundamental_div_mod_converse,
    lemma_mod_division_less_than_divisor,
};
use vstd::prelude::*;

use crate::buffer::{adj_x, adj_y, TileBuffer};
use crate::cartesian::floor_div;
use crate::cartesian::HexGeometry;

verus! {

/// Micropixels per pixel: the fixed-point scale of the stored offset.
pub const SUBPIXELS: i64 = 1000000;

/// Largest accepted tick duration, in microseconds.
pub const DT_MAX_MICROS: u64 = 100000000;

/// Largest accepted speed magnitude per axis, in milli-hex-units per
/// second.
pub const SPEED_MAX_MILLI: i64 = 1000000;

/// Integer division truncated toward zero, as the crossing count of an
/// accumulated offset: an offset smaller than one tile period in
/// magnitude crosses no tile boundary in either direction.
pub open spec fn trunc_div(a: int, b: int) -> int {
    if a >= 0 {
        a / b
    } else {
        -((-a) / b)
    }
}

/// The remainder of `trunc_div`: what is left of `a` after removing
/// `trunc_div(a, b)` whole periods. It keeps the sign of `a`.
pub open spec fn trunc_rem(a: int, b: int) -> int {
    if a >= 0 {
        a % b
    } else {
        -((-a) % b)
    }
}

/// The micropixel displacement of one tick along `x`: the `x` row of the
/// hex transform applied to the axial speed, integrated over the tick and
/// floored to a whole micropixel.
pub open spec fn disp_x_sub(geom: HexGeometry, sq: int, sr: int, dt: int) -> int {
    (geom.half_tile_width * (2 * sq + sr) * dt) / 1000
}

/// The micropixel displacement of one tick along `y`.
pub open spec fn disp_y_sub(geom: HexGeometry, sr: int, dt: int) -> int {
    (geom.row_step * sr * dt) / 1000
}

/// The scrolling background: a hex geometry, the recycled tile window,
/// and the accumulated sub-tile offset.
pub struct ScrollState {
    pub geom: HexGeometry,
    pub buffer: TileBuffer,
    /// Sub-tile offset along `x`, in micropixels; strictly smaller than
    /// one horizontal tile period in magnitude.
    pub offset_x: i64,
    /// Sub-tile offset along `y`, in micropixels; strictly smaller than
    /// one vertical tile period in magnitude.
    pub offset_y: i64,
}

impl ScrollState {
    /// The horizontal tile period in micropixels.
    pub open spec fn period_x_sub(self) -> int {
        self.geom.period_x() * SUBPIXELS
    }

    /// The vertical tile period in micropixels.
    pub open spec fn period_y_sub(self) -> int {
        self.geom.period_y() * SUBPIXELS
    }

    pub open spec fn wf(self) -> bool {
        &&& self.geom.wf()
        &&& self.buffer.wf()
        &&& -self.period_x_sub() < self.offset_x < self.period_x_sub()
        &&& -self.period_y_sub() < self.offset_y < self.period_y_sub()
    }

    /// Starts the scroll at the buffer's nominal alignment: zero offset.
    pub fn new(geom: HexGeometry, buffer: TileBuffer) -> (s: ScrollState)
        requires
            geom.wf(),
            buffer.wf(),
        ensures
            s.geom == geom,
            s.buffer == buffer,
            s.offset_x == 0,
            s.offset_y == 0,
            s.wf(),
    {
        let s = ScrollState { geom, buffer, offset_x: 0, offset_y: 0 };
        proof {
            assert(s.period_x_sub() > 0 && s.period_y_sub() > 0) by (nonlinear_arith)
                requires
                    s.geom.wf(),
                    s.period_x_sub() == 2 * s.geom.half_tile_width * SUBPIXELS,
                    s.period_y_sub() == 2 * s.geom.row_step * SUBPIXELS,
            ;
        }
        s
    }

    /// Advances the scroll by one tick.
    ///
    /// The speed `(speed_q_milli, speed_r_milli)` is the axial velocity in
    /// milli-hex-units per second; `dt_micros` is the elapsed time. The
    /// offset grows by the transformed displacement, whole-tile crossings
    /// are removed from it and recycled into the buffer, and the stored
    /// remainder stays strictly inside one tile period per axis. On a
    /// tick that crosses no boundary the buffer is untouched and the
    /// random generator is not advanced.
    pub fn tick(
        &mut self,
        dt_micros: u64,
        speed_q_milli: i64,
        speed_r_milli: i64,
        rng: &mut wyrand::WyRand,
    )
        requires
            old(self).wf(),
            dt_micros <= DT_MAX_MICROS,
            -SPEED_MAX_MILLI <= speed_q_milli <= SPEED_MAX_MILLI,
            -SPEED_MAX_MILLI <= speed_r_milli <= SPEED_MAX_MILLI,
        ensures
            final(self).wf(),
            final(self).geom == old(self).geom,
            final(self).buffer.same_shape(old(self).buffer),
            ({
                let g = old(self).geom;
                let dx = disp_x_sub(g, speed_q_milli as int, speed_r_milli as int, dt_micros as int);
                let dy = disp_y_sub(g, speed_r_milli as int, dt_micros as int);
                let off1x = old(self).offset_x + dx;
                let off1y = old(self).offset_y + dy;
                let tdx = trunc_div(off1x, old(self).period_x_sub());
                let tdy = trunc_div(off1y, old(self).period_y_sub());
                &&& final(self).offset_x == off1x - tdx * old(self).period_x_sub()
                &&& final(self).offset_y == off1y - tdy * old(self).period_y_sub()
                &&& (tdx == 0 && tdy == 0 ==> final(self).buffer == old(self).buffer)
                &&& (tdx == 0 && tdy == 0 ==> *final(rng) == *old(rng))
                &&& forall|x: int, y: int| #![trigger final(self).buffer.cell(x, y)]
                    old(self).buffer.in_bounds(x, y) && old(self).buffer.in_bounds(
                        x - adj_x(tdx, tdy),
                        y - adj_y(tdy),
                    ) ==> final(self).buffer.cell(x, y) == old(self).buffer.cell(
                        x - adj_x(tdx, tdy),
                        y - adj_y(tdy),
                    )
            }),
    {
        let hw: i64 = self.geom.half_tile_width;
        let rs: i64 = self.geom.row_step;
        let sq: i128 = speed_q_milli as i128;
        let sr: i128 = speed_r_milli as i128;
        let dt: i128 = dt_micros as i128;
        proof {
            assert({
                &&& -4000000000000 <= (hw as int) * (2 * sq + sr) <= 4000000000000
                &&& -4000000000000 <= (rs as int) * sr <= 4000000000000
            }) by (nonlinear_arith)
                requires
                    1 <= hw <= 1048576,
                    1 <= rs <= 1048576,
                    -1000000 <= sq <= 1000000,
                    -1000000 <= sr <= 1000000,
            ;
        }
        let vx: i128 = (hw as i128) * (2 * sq + sr);
        let vy: i128 = (rs as i128) * sr;
        proof {
            assert({
                &&& -400000000000000000000 <= vx * dt <= 400000000000000000000
                &&& -400000000000000000000 <= vy * dt <= 400000000000000000000
            }) by (nonlinear_arith)
                requires
                    -4000000000000 <= vx <= 4000000000000,
                    -4000000000000 <= vy <= 4000000000000,
                    0 <= dt <= 100000000,
            ;
        }
        let nx: i128 = vx * dt;
        let ny: i128 = vy * dt;
        let dx128: i128 = floor_div(nx, 1000);
        let dy128: i128 = floor_div(ny, 1000);
        proof {
            lemma_fundamental_div_mod(nx as int, 1000);
            lemma_mod_division_less_than_divisor(nx as int, 1000);
            lemma_fundamental_div_mod(ny as int, 1000);
            lemma_mod_division_less_than_divisor(ny as int, 1000);
        }
        let dx: i64 = dx128 as i64;
        let dy: i64 = dy128 as i64;
        let px: i64 = 2 * hw * SUBPIXELS;
        let py: i64 = 2 * rs * SUBPIXELS;
        let off1x: i64 = self.offset_x + dx;
        let off1y: i64 = self.offset_y + dy;
        let tdx: i64 = off1x / px;
        let tdy: i64 = off1y / py;
        let remx: i64 = off1x % px;
        let remy: i64 = off1y % py;
        proof {
            lemma_trunc_div_rem(off1x as int, px as int);
            lemma_trunc_div_rem(off1y as int, py as int);
            assert({
                &&& -0x10000000000 <= tdx <= 0x10000000000
                &&& -0x10000000000 <= tdy <= 0x10000000000
            }) by (nonlinear_arith)
                requires
                    (tdx as int) * px == off1x - remx,
                    (tdy as int) * py == off1y - remy,
                    -(px as int) < remx < px,
                    -(py as int) < remy < py,
                    2000000 <= px <= 3000000000000,
                    2000000 <= py <= 3000000000000,
                    -600000000000000000 <= off1x <= 600000000000000000,
                    -600000000000000000 <= off1y <= 600000000000000000,
            ;
        }
        if tdx != 0 || tdy != 0 {
            self.buffer.apply_tile_diff(tdx, tdy, rng);
        }
        self.offset_x = remx;
        self.offset_y = remy;
    }
}

/// `trunc_div` and `trunc_rem` decompose a value over a positive period:
/// the remainder is what the quotient of whole periods leaves behind, it
/// is strictly smaller than the period in magnitude, and a value already
/// inside one period has quotient zero.
pub proof fn lemma_trunc_div_rem(a: int, b: int)
    requires
        b >= 1,
    ensures
        trunc_div(a, b) * b == a - trunc_rem(a, b),
        -b < trunc_rem(a, b) < b,
        -b < a < b ==> trunc_div(a, b) == 0 && trunc_rem(a, b) == a,
{
    if a >= 0 {
        lemma_fundamental_div_mod(a, b);
        lemma_mod_division_less_than_divisor(a, b);
        assert((a / b) * b == a - a % b) by (nonlinear_arith)
            requires
                a == b * (a / b) + a % b,
        ;
        if a < b {
            lemma_basic_div_bound(a, b);
            assert(a % b == a) by (nonlinear_arith)
                requires
                    a == b * (a / b) + a % b,
                    a / b == 0,
            ;
        }
    } else {
        let m = -a;
        lemma_fundamental_div_mod(m, b);
        lemma_mod_division_less_than_divisor(m, b);
        assert((-(m / b)) * b == a + m % b) by (nonlinear_arith)
            requires
                m == b * (m / b) + m % b,
                m == -a,
        ;
        if -b < a {
            lemma_basic_div_bound(m, b);
            assert(m % b == m) by (nonlinear_arith)
                requires
                    m == b * (m / b) + m % b,
                    m / b == 0,
            ;
        }
    }
}

/// With zero scroll speed, a tick of any duration is a no-op: the
/// displacement is zero, a well-formed offset crosses no tile boundary,
/// and the normalized offset is the offset itself. Together with `tick`'s
/// contract this shows that repeated zero-speed ticks never change the
/// offset, never touch a buffer cell, and never advance the random
/// generator.
pub proof fn lemma_zero_speed_tick_is_noop(s: ScrollState, dt: int)
    requires
        s.wf(),
        dt >= 0,
    ensures
        disp_x_sub(s.geom, 0, 0, dt) == 0,
        disp_y_sub(s.geom, 0, dt) == 0,
        trunc_div(s.offset_x + 0, s.period_x_sub()) == 0,
        trunc_div(s.offset_y + 0, s.period_y_sub()) == 0,
        s.offset_x + 0 - 0 * s.period_x_sub() == s.offset_x,
        s.offset_y + 0 - 0 * s.period_y_sub() == s.offset_y,
{
    let hw = s.geom.half_tile_width as int;
    let rs = s.geom.row_step as int;
    assert({
        &&& hw * (2 * 0 + 0) * dt == 0
        &&& rs * 0 * dt == 0
        &&& 0 * s.period_x_sub() == 0
        &&& 0 * s.period_y_sub() == 0
        &&& s.period_x_sub() >= 1
        &&& s.period_y_sub() >= 1
    }) by (nonlinear_arith)
        requires
            hw >= 1,
            rs >= 1,
            s.period_x_sub() == 2 * hw * 1000000,
            s.period_y_sub() == 2 * rs * 1000000,
    ;
    lemma_basic_div_bound(0, 1000);
    lemma_trunc_div_rem(s.offset_x as int, s.period_x_sub());
    lemma_trunc_div_rem(s.offset_y as int, s.period_y_sub());
}

/// A nonnegative value below the divisor has quotient zero.
proof fn lemma_basic_div_bound(a: int, b: int)
    requires
        0 <= a < b,
    ensures
        a / b == 0,
{
    lemma_fundamental_div_mod_converse(a, b, 0, a);
}

} // verus!
