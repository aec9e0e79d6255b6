//! The exact transform between the hexagonal lattice and pixel space.
//!
//! For a pointy-top, row-offset layout the hex geometry is captured by two
//! pixel constants: `half_tile_width` (half the horizontal spacing of a
//! row, the `sqrt(3)/2`-derived coefficient) and `row_step` (the vertical
//! distance between adjacent row centers, `1.5` times the hex half-height).
//! A cell `(q, r)` sits at
//!
//! ```text
//! x = half_tile_width * (2*q + r)        y = row_step * r
//! ```
//!
//! The inverse transform lands between cells, so it returns a fractional
//! axial coordinate represented exactly as a pair of integer numerators
//! over a common positive denominator; no precision is lost, and rounding
//! to the nearest cell is the standard cube rounding with a fixed,
//! deterministic tie-break that prefers correcting `q` over `r` over `s`.

use vstd::arithmetic::div_mod::{lemma_fundamental_div_mod, lemma_fundamental_div_mod_converse};
use vstd::prelude::*;

use crate::coords::Axial;
use crate::coords::Direction;

verus! {

/// Largest accepted pixel value for either geometry constant.
pub const GEOM_MAX: i64 = 1048576;

/// Bound on the numerators of a fractional axial coordinate (2^100).
pub const FRAC_NUM_MAX: i128 = 1267650600228229401496703205376;

/// Bound on the denominator of a fractional axial coordinate (2^44).
pub const FRAC_DEN_MAX: i128 = 17592186044416;

/// Largest axial magnitude that `round_to_nearest_hex` accepts (2^29).
pub const ROUND_LIMIT: i128 = 536870912;

/// A position in pixel space. Pixels may be subdivided: the geometry
/// constants decide the unit.
#[derive(Clone, Copy, Debug, PartialEq, Eq, Structural)]
pub struct PixelVec {
    pub x: i64,
    pub y: i64,
}

/// Why a set of hex-geometry constants was rejected.
#[derive(Clone, Copy, Debug, PartialEq, Eq, Structural)]
pub enum GeometryError {
    /// A constant was zero or negative: the tile period would be degenerate.
    NonPositive,
    /// A constant was larger than `GEOM_MAX`.
    TooLarge,
}

/// The fixed pixel constants of one hex-tile art asset.
#[derive(Clone, Copy, Debug, PartialEq, Eq, Structural)]
pub struct HexGeometry {
    /// Half the horizontal spacing between hexes of one row, in pixels.
    pub half_tile_width: i64,
    /// The vertical distance between adjacent row centers, in pixels.
    pub row_step: i64,
}

impl HexGeometry {
    pub open spec fn wf(self) -> bool {
        &&& 1 <= self.half_tile_width <= GEOM_MAX
        &&& 1 <= self.row_step <= GEOM_MAX
    }

    /// The `x` pixel coordinate of the cell `(q, r)`.
    pub open spec fn cart_x(self, q: int, r: int) -> int {
        self.half_tile_width * (2 * q + r)
    }

    /// The `y` pixel coordinate of the cell `(q, r)`.
    pub open spec fn cart_y(self, r: int) -> int {
        self.row_step * r
    }

    /// The horizontal tile period: the pixel distance between equivalent
    /// positions of the repeating tile pattern.
    pub open spec fn period_x(self) -> int {
        2 * self.half_tile_width
    }

    /// The vertical tile period, accounting for the row offset.
    pub open spec fn period_y(self) -> int {
        2 * self.row_step
    }

    /// The common denominator of the exact inverse transform.
    pub open spec fn inv_den(self) -> int {
        2 * self.half_tile_width * self.row_step
    }

    /// Checks and packages the geometry constants, rejecting a degenerate
    /// tile period at construction time.
    pub fn new(half_tile_width: i64, row_step: i64) -> (res: Result<HexGeometry, GeometryError>)
        ensures
            match res {
                Ok(g) => {
                    &&& g.half_tile_width == half_tile_width
                    &&& g.row_step == row_step
                    &&& g.wf()
                },
                Err(GeometryError::NonPositive) => half_tile_width < 1 || row_step < 1,
                Err(GeometryError::TooLarge) => {
                    &&& half_tile_width >= 1
                    &&& row_step >= 1
                    &&& (half_tile_width > GEOM_MAX || row_step > GEOM_MAX)
                },
            },
            res is Ok <==> {
                &&& 1 <= half_tile_width <= GEOM_MAX
                &&& 1 <= row_step <= GEOM_MAX
            },
    {
        if half_tile_width < 1 || row_step < 1 {
            Err(GeometryError::NonPositive)
        } else if half_tile_width > GEOM_MAX || row_step > GEOM_MAX {
            Err(GeometryError::TooLarge)
        } else {
            Ok(HexGeometry { half_tile_width, row_step })
        }
    }

    /// The pixel position of the center of a cell: the fixed linear
    /// transform of the axial coordinate.
    pub fn to_cartesian(self, a: Axial) -> (p: PixelVec)
        requires
            self.wf(),
        ensures
            p.x == self.cart_x(a.q as int, a.r as int),
            p.y == self.cart_y(a.r as int),
    {
        let two_q_plus_r: i64 = 2 * (a.q as i64) + (a.r as i64);
        proof {
            assert({
                &&& -0x100000000000000 <= self.half_tile_width * two_q_plus_r
                    <= 0x100000000000000
                &&& -0x100000000000000 <= self.row_step * (a.r as i64) <= 0x100000000000000
            }) by (nonlinear_arith)
                requires
                    1 <= self.half_tile_width <= 1048576,
                    1 <= self.row_step <= 1048576,
                    -0x180000000 <= two_q_plus_r <= 0x180000000,
                    -0x80000000 <= a.r <= 0x80000000,
            ;
        }
        PixelVec { x: self.half_tile_width * two_q_plus_r, y: self.row_step * (a.r as i64) }
    }

    /// The exact mathematical inverse of `to_cartesian`: the fractional
    /// axial coordinate of an arbitrary pixel position, with no rounding.
    pub fn from_cartesian(self, p: PixelVec) -> (f: FracAxial)
        requires
            self.wf(),
        ensures
            f.wf(),
            f.den == self.inv_den(),
            f.q_num == p.x * self.row_step - p.y * self.half_tile_width,
            f.r_num == 2 * self.half_tile_width * p.y,
    {
        let hw: i128 = self.half_tile_width as i128;
        let rs: i128 = self.row_step as i128;
        let x: i128 = p.x as i128;
        let y: i128 = p.y as i128;
        proof {
            assert({
                &&& -0x100000000000000000000000 <= x * rs <= 0x100000000000000000000000
                &&& -0x100000000000000000000000 <= y * hw <= 0x100000000000000000000000
                &&& -0x200000000000000000000000 <= 2 * hw * y <= 0x200000000000000000000000
                &&& 1 <= 2 * hw * rs <= 0x20000000000
            }) by (nonlinear_arith)
                requires
                    -0x8000000000000000 <= x <= 0x8000000000000000,
                    -0x8000000000000000 <= y <= 0x8000000000000000,
                    1 <= hw <= 1048576,
                    1 <= rs <= 1048576,
            ;
        }
        FracAxial { q_num: x * rs - y * hw, r_num: 2 * hw * y, den: 2 * hw * rs }
    }
}

/// A fractional axial coordinate, held exactly as the pair of rationals
/// `(q_num / den, r_num / den)` with a shared positive denominator.
#[derive(Clone, Copy, Debug, PartialEq, Eq, Structural)]
pub struct FracAxial {
    pub q_num: i128,
    pub r_num: i128,
    pub den: i128,
}

impl FracAxial {
    pub open spec fn wf(self) -> bool {
        &&& 1 <= self.den <= FRAC_DEN_MAX
        &&& -FRAC_NUM_MAX <= self.q_num <= FRAC_NUM_MAX
        &&& -FRAC_NUM_MAX <= self.r_num <= FRAC_NUM_MAX
    }

    pub fn new(q_num: i128, r_num: i128, den: i128) -> (f: FracAxial)
        requires
            1 <= den <= FRAC_DEN_MAX,
            -FRAC_NUM_MAX <= q_num <= FRAC_NUM_MAX,
            -FRAC_NUM_MAX <= r_num <= FRAC_NUM_MAX,
        ensures
            f.q_num == q_num,
            f.r_num == r_num,
            f.den == den,
            f.wf(),
    {
        FracAxial { q_num, r_num, den }
    }
}

/// `n / d` rounded to the nearest integer, halves rounding up.
pub open spec fn round_half_up(n: int, d: int) -> int {
    (2 * n + d) / (2 * d)
}

pub open spec fn abs_int(x: int) -> int {
    if x >= 0 {
        x
    } else {
        -x
    }
}

/// Cube rounding of the fractional axial coordinate `(qn/d, rn/d)`: each
/// of `q`, `r` and the derived `s` is rounded to the nearest integer, and
/// the coordinate whose rounding error is largest is recomputed from the
/// other two so that `q + r + s == 0` again. Error ties prefer correcting
/// `q` over `r` over `s`.
pub open spec fn spec_round_axial(qn: int, rn: int, d: int) -> (int, int) {
    let sn = -qn - rn;
    let rq = round_half_up(qn, d);
    let rr = round_half_up(rn, d);
    let rs = round_half_up(sn, d);
    let eq = abs_int(rq * d - qn);
    let er = abs_int(rr * d - rn);
    let es = abs_int(rs * d - sn);
    if eq >= er && eq >= es {
        (-rr - rs, rr)
    } else if er >= es {
        (rq, -rq - rs)
    } else {
        (rq, rr)
    }
}

/// Floor division for a positive divisor: the unique `q` with
/// `q * b <= a < (q + 1) * b`.
pub(crate) fn floor_div(a: i128, b: i128) -> (q: i128)
    requires
        -0x10000000000000000000000000000 <= a <= 0x10000000000000000000000000000,
        1 <= b <= 0x10000000000000000000000000000,
    ensures
        q == a / b,
{
    let t = a / b;
    let rem = a % b;
    if rem != 0 && a < 0 {
        proof {
            let m = -a as int;
            lemma_fundamental_div_mod(m, b as int);
            let mq = m / (b as int);
            let mr = m % (b as int);
            assert(a == (-mq - 1) * b + (b - mr)) by (nonlinear_arith)
                requires
                    m == (b as int) * mq + mr,
                    m == -a,
            ;
            lemma_fundamental_div_mod_converse(a as int, b as int, -mq - 1, b as int - mr);
        }
        t - 1
    } else {
        proof {
            if a < 0 {
                let m = -a as int;
                lemma_fundamental_div_mod(m, b as int);
                let mq = m / (b as int);
                assert(a == (-mq) * b + 0) by (nonlinear_arith)
                    requires
                        m == (b as int) * mq,
                        m == -a,
                ;
                lemma_fundamental_div_mod_converse(a as int, b as int, -mq, 0);
            }
        }
        t
    }
}

/// The scaled rounding error of `round_half_up` is at most half the
/// denominator: `2 * (round_half_up(n, d) * d - n)` lies in `(-d, d]`.
proof fn lemma_round_half_up_err(n: int, d: int)
    requires
        d >= 1,
    ensures
        -d < 2 * (round_half_up(n, d) * d - n) <= d,
{
    let x = 2 * n + d;
    let dd = 2 * d;
    lemma_fundamental_div_mod(x, dd);
    let rq = x / dd;
    let rho = x % dd;
    assert(2 * (rq * d - n) == d - rho) by (nonlinear_arith)
        requires
            x == dd * rq + rho,
            x == 2 * n + d,
            dd == 2 * d,
    ;
}

/// `round_half_up` of an exact multiple recovers the multiplier.
proof fn lemma_round_half_up_exact(v: int, d: int)
    requires
        d >= 1,
    ensures
        round_half_up(v * d, d) == v,
{
    assert(2 * (v * d) + d == v * (2 * d) + d) by (nonlinear_arith);
    lemma_fundamental_div_mod_converse(2 * (v * d) + d, 2 * d, v, d);
}

/// A bound on the rounded value from a bound on the fraction.
proof fn lemma_round_half_up_bound(n: int, d: int, l: int)
    requires
        d >= 1,
        l >= 0,
        -l * d <= n <= l * d,
    ensures
        -(l + 1) <= round_half_up(n, d) <= l + 1,
{
    let rq = round_half_up(n, d);
    lemma_round_half_up_err(n, d);
    assert(-(l + 1) <= rq <= l + 1) by (nonlinear_arith)
        requires
            d >= 1,
            l >= 0,
            -l * d <= n <= l * d,
            -d < 2 * (rq * d - n) <= d,
    ;
}

/// Cube rounding applied to an exact lattice point recovers that point:
/// `spec_round_axial(q * d, r * d, d) == (q, r)`.
pub proof fn lemma_round_axial_exact(q: int, r: int, d: int)
    requires
        d >= 1,
    ensures
        spec_round_axial(q * d, r * d, d) == (q, r),
{
    let qn = q * d;
    let rn = r * d;
    let sn = -qn - rn;
    assert(sn == (-q - r) * d) by (nonlinear_arith)
        requires
            sn == -(q * d) - (r * d),
    ;
    lemma_round_half_up_exact(q, d);
    lemma_round_half_up_exact(r, d);
    lemma_round_half_up_exact(-q - r, d);
}

/// Round-trip identity: the cell `(q, r)` mapped to pixel space, mapped
/// back through the exact inverse transform, and rounded to the nearest
/// hex is `(q, r)` again. The inverse is exact on lattice points: the
/// fractional coordinate is already the integer pair scaled by the
/// denominator.
pub proof fn lemma_cartesian_round_trip(geom: HexGeometry, q: int, r: int)
    requires
        geom.wf(),
    ensures
        ({
            let x = geom.cart_x(q, r);
            let y = geom.cart_y(r);
            let qn = x * geom.row_step - y * geom.half_tile_width;
            let rn = 2 * geom.half_tile_width * y;
            &&& qn == q * geom.inv_den()
            &&& rn == r * geom.inv_den()
            &&& spec_round_axial(qn, rn, geom.inv_den()) == (q, r)
        }),
{
    let hw = geom.half_tile_width as int;
    let rs = geom.row_step as int;
    let x = geom.cart_x(q, r);
    let y = geom.cart_y(r);
    let qn = x * rs - y * hw;
    let rn = 2 * hw * y;
    let den = geom.inv_den();
    assert(qn == q * den && rn == r * den && den >= 1) by (nonlinear_arith)
        requires
            x == hw * (2 * q + r),
            y == rs * r,
            qn == x * rs - y * hw,
            rn == 2 * hw * y,
            den == 2 * hw * rs,
            hw >= 1,
            rs >= 1,
    ;
    lemma_round_axial_exact(q, r, den);
}

/// Inverse transform exactness: for any pixel point `p`, applying the
/// forward transform to the fractional axial coordinate that
/// `from_cartesian` returns gives back exactly `p`. Since the fractional
/// coordinate is the rational pair `(qn/den, rn/den)`, the statement is
/// scaled by the common denominator: `hw * (2*qn + rn) == x * den` and
/// `rs * rn == y * den`.
pub proof fn lemma_from_cartesian_exact(geom: HexGeometry, x: int, y: int)
    requires
        geom.wf(),
    ensures
        ({
            let qn = x * geom.row_step - y * geom.half_tile_width;
            let rn = 2 * geom.half_tile_width * y;
            &&& geom.half_tile_width * (2 * qn + rn) == x * geom.inv_den()
            &&& geom.row_step * rn == y * geom.inv_den()
        }),
{
    let hw = geom.half_tile_width as int;
    let rs = geom.row_step as int;
    let qn = x * rs - y * hw;
    let rn = 2 * hw * y;
    assert(hw * (2 * qn + rn) == x * (2 * hw * rs) && rs * rn == y * (2 * hw * rs))
        by (nonlinear_arith)
        requires
            qn == x * rs - y * hw,
            rn == 2 * hw * y,
    ;
}

/// Negating one factor of a product negates the product.
proof fn lemma_mul_negate(c: int, a: int, b: int)
    requires
        a == -b,
    ensures
        c * a == -(c * b),
{
    assert(c * a == -(c * b)) by (nonlinear_arith)
        requires
            a == -b,
    ;
}

/// The opposite direction's adjacency vector is the negation of the
/// original's, in pixel space as well as on the lattice.
pub proof fn lemma_opposite_negates_cartesian(geom: HexGeometry, d: Direction)
    requires
        geom.wf(),
    ensures
        geom.cart_x(d.opposite_spec().offset_q(), d.opposite_spec().offset_r()) == -geom.cart_x(
            d.offset_q(),
            d.offset_r(),
        ),
        geom.cart_y(d.opposite_spec().offset_r()) == -geom.cart_y(d.offset_r()),
{
    let o = d.opposite_spec();
    lemma_mul_negate(
        geom.half_tile_width as int,
        2 * o.offset_q() + o.offset_r(),
        2 * d.offset_q() + d.offset_r(),
    );
    lemma_mul_negate(geom.row_step as int, o.offset_r(), d.offset_r());
}

/// Reflecting a direction across the vertical axis mirrors its Cartesian
/// adjacency vector: the pixel image of the reflected direction is the
/// original image with the `x` coordinate negated and the `y` coordinate
/// kept.
pub proof fn lemma_invert_x_mirrors_cartesian(geom: HexGeometry, d: Direction)
    requires
        geom.wf(),
    ensures
        geom.cart_x(d.invert_x_spec().offset_q(), d.invert_x_spec().offset_r()) == -geom.cart_x(
            d.offset_q(),
            d.offset_r(),
        ),
        geom.cart_y(d.invert_x_spec().offset_r()) == geom.cart_y(d.offset_r()),
{
    let m = d.invert_x_spec();
    lemma_mul_negate(
        geom.half_tile_width as int,
        2 * m.offset_q() + m.offset_r(),
        2 * d.offset_q() + d.offset_r(),
    );
}

/// Reflecting a direction across the horizontal axis mirrors its
/// Cartesian adjacency vector: the pixel image of the reflected direction
/// is the original image with the `y` coordinate negated and the `x`
/// coordinate kept. East and West lie on the horizontal axis and are the
/// reflection's fixed points.
pub proof fn lemma_invert_y_mirrors_cartesian(geom: HexGeometry, d: Direction)
    requires
        geom.wf(),
    ensures
        geom.cart_x(d.invert_y_spec().offset_q(), d.invert_y_spec().offset_r()) == geom.cart_x(
            d.offset_q(),
            d.offset_r(),
        ),
        geom.cart_y(d.invert_y_spec().offset_r()) == -geom.cart_y(d.offset_r()),
{
    let m = d.invert_y_spec();
    assert(2 * m.offset_q() + m.offset_r() == 2 * d.offset_q() + d.offset_r());
    lemma_mul_negate(geom.row_step as int, m.offset_r(), d.offset_r());
}

impl FracAxial {
    /// Snaps this fractional axial coordinate to the cell that contains
    /// it, by cube rounding with the fixed deterministic tie-break. The
    /// same input always yields the same output.
    pub fn round_to_nearest_hex(self) -> (a: Axial)
        requires
            self.wf(),
            -ROUND_LIMIT * self.den <= self.q_num <= ROUND_LIMIT * self.den,
            -ROUND_LIMIT * self.den <= self.r_num <= ROUND_LIMIT * self.den,
        ensures
            (a.q as int, a.r as int) == spec_round_axial(
                self.q_num as int,
                self.r_num as int,
                self.den as int,
            ),
    {
        let qn = self.q_num;
        let rn = self.r_num;
        let d = self.den;
        let sn = -qn - rn;
        let rq = floor_div(2 * qn + d, 2 * d);
        let rr = floor_div(2 * rn + d, 2 * d);
        let rs = floor_div(2 * sn + d, 2 * d);
        proof {
            lemma_round_half_up_bound(qn as int, d as int, ROUND_LIMIT as int);
            lemma_round_half_up_bound(rn as int, d as int, ROUND_LIMIT as int);
            assert(-(2 * ROUND_LIMIT) * d <= sn <= (2 * ROUND_LIMIT) * d) by (nonlinear_arith)
                requires
                    sn == -qn - rn,
                    d >= 1,
                    -ROUND_LIMIT * d <= qn <= ROUND_LIMIT * d,
                    -ROUND_LIMIT * d <= rn <= ROUND_LIMIT * d,
            ;
            lemma_round_half_up_bound(sn as int, d as int, 2 * ROUND_LIMIT as int);
            lemma_round_half_up_err(qn as int, d as int);
            lemma_round_half_up_err(rn as int, d as int);
            lemma_round_half_up_err(sn as int, d as int);
            assert(abs_int(rq * d - qn) <= d && abs_int(rr * d - rn) <= d && abs_int(
                rs * d - sn,
            ) <= d) by (nonlinear_arith)
                requires
                    -(d as int) < 2 * ((rq as int) * d - qn) <= d,
                    -(d as int) < 2 * ((rr as int) * d - rn) <= d,
                    -(d as int) < 2 * ((rs as int) * d - sn) <= d,
                    d >= 1,
            ;
        }
        let vq = rq * d - qn;
        let vr = rr * d - rn;
        let vs = rs * d - sn;
        let eq = if vq >= 0 {
            vq
        } else {
            -vq
        };
        let er = if vr >= 0 {
            vr
        } else {
            -vr
        };
        let es = if vs >= 0 {
            vs
        } else {
            -vs
        };
        let (out_q, out_r): (i128, i128) = if eq >= er && eq >= es {
            (-rr - rs, rr)
        } else if er >= es {
            (rq, -rq - rs)
        } else {
            (rq, rr)
        };
        Axial { q: out_q as i32, r: out_r as i32 }
    }
}

} // verus!
