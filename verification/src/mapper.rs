//! The coordinate mapper: from cluster space to screen space under a uniform
//! scale and an offset.

use vstd::prelude::*;

verus! {

/// A scale factor, held exactly as the ratio `numerator / denominator`.
#[derive(Clone, Copy, Debug, PartialEq, Eq)]
pub struct ScaleFactor {
    pub numerator: u32,
    pub denominator: u32,
}

impl ScaleFactor {
    /// The denominator is not zero.
    pub open spec fn wf(&self) -> bool {
        self.denominator > 0
    }

    /// The ratio of a desired draw size to a reference extent; `None` where
    /// the extent is zero.
    pub fn new(numerator: u32, denominator: u32) -> (scale: Option<ScaleFactor>)
        ensures
            scale == if denominator == 0 {
                None
            } else {
                Some(ScaleFactor { numerator, denominator })
            },
            scale matches Some(s) ==> s.wf(),
    {
        if denominator == 0 {
            None
        } else {
            Some(ScaleFactor { numerator, denominator })
        }
    }
}

/// The integer nearest to `v / d`, for `d > 0`; a tie goes to the one
/// farther from zero.
pub open spec fn round_half_away(v: int, d: int) -> int {
    if v >= 0 {
        (2 * v + d) / (2 * d)
    } else {
        -((2 * (-v) + d) / (2 * d))
    }
}

/// A cluster coordinate scaled and rounded.
pub open spec fn scaled(scale: ScaleFactor, x: int) -> int {
    round_half_away(x * scale.numerator, scale.denominator as int)
}

/// Maps cluster coordinates to screen coordinates.
#[derive(Clone, Copy, Debug, PartialEq, Eq)]
pub struct CoordinateMapper {
    pub scale: ScaleFactor,
    pub offset: (i32, i32),
}

impl CoordinateMapper {
    /// Where the cluster position `(x, y)` lies on the screen: each
    /// coordinate scaled, rounded to the nearest integer, and moved by the
    /// offset.
    pub open spec fn mapped(&self, x: int, y: int) -> (int, int) {
        (scaled(self.scale, x) + self.offset.0, scaled(self.scale, y) + self.offset.1)
    }

    /// Maps a cluster position to the screen. The result is exact: it is
    /// wide enough for every position, scale and offset.
    pub fn map(&self, x: i32, y: i32) -> (p: (i64, i64))
        requires
            self.scale.wf(),
        ensures
            (p.0 as int, p.1 as int) == self.mapped(x as int, y as int),
    {
        let sx = scale_coordinate(self.scale, x);
        let sy = scale_coordinate(self.scale, y);
        (sx + self.offset.0 as i64, sy + self.offset.1 as i64)
    }
}

/// Scales one coordinate and rounds it to the nearest integer.
pub fn scale_coordinate(scale: ScaleFactor, x: i32) -> (r: i64)
    requires
        scale.wf(),
    ensures
        r == scaled(scale, x as int),
        -0x8000_0000 * 0xffff_ffff <= r <= 0x8000_0000 * 0xffff_ffff,
{
    let d: i128 = scale.denominator as i128;
    let n: i128 = scale.numerator as i128;
    let magnitude: i128 = if x >= 0 {
        x as i128
    } else {
        -(x as i128)
    };
    assert(0 <= magnitude * n <= 0x8000_0000 * 0xffff_ffff) by (nonlinear_arith)
        requires
            0 <= magnitude <= 0x8000_0000,
            0 <= n <= 0xffff_ffff,
    ;
    let v: i128 = magnitude * n;
    let q: i128 = (2 * v + d) / (2 * d);
    proof {
        assert(2 * v + d < (v + 1) * (2 * d)) by (nonlinear_arith)
            requires
                0 <= v,
                1 <= d,
        ;
        lemma_quotient_bound(2 * v + d, 2 * d, v + 1);
        if x < 0 {
            assert((-(x as int)) * (n as int) == -((x as int) * (n as int))) by (nonlinear_arith);
        }
    }
    if x >= 0 {
        q as i64
    } else {
        (-q) as i64
    }
}

/// A quotient by a positive divisor is bounded by the dividend.
proof fn lemma_quotient_bound(a: int, b: int, bound: int)
    requires
        0 <= a,
        1 <= b,
        a < bound * b,
    ensures
        0 <= a / b < bound,
{
    vstd::arithmetic::div_mod::lemma_fundamental_div_mod(a, b);
    vstd::arithmetic::div_mod::lemma_mod_bound(a, b);
    vstd::arithmetic::div_mod::lemma_div_pos_is_pos(a, b);
    assert(a / b < bound) by (nonlinear_arith)
        requires
            a == b * (a / b) + a % b,
            0 <= a % b,
            a < bound * b,
            1 <= b,
    ;
}

/// Rounding gives a nearest integer: `round_half_away(v, d)` is within half
/// a unit of `v / d`, and where `v / d` lies half-way between two integers
/// it is the one farther from zero.
pub proof fn lemma_round_nearest(v: int, d: int)
    requires
        d > 0,
    ensures
        ({
            let r = round_half_away(v, d);
            &&& -d <= 2 * (r * d - v) <= d
            &&& v >= 0 ==> r >= 0 && 2 * (r * d - v) > -d
            &&& v < 0 ==> r <= 0 && 2 * (r * d - v) < d
        }),
{
    let a = if v >= 0 {
        2 * v + d
    } else {
        2 * (-v) + d
    };
    let q = a / (2 * d);
    vstd::arithmetic::div_mod::lemma_fundamental_div_mod(a, 2 * d);
    vstd::arithmetic::div_mod::lemma_mod_bound(a, 2 * d);
    vstd::arithmetic::div_mod::lemma_div_pos_is_pos(a, 2 * d);
    assert((2 * d) * q == 2 * (q * d)) by (nonlinear_arith);
    assert((-q) * d == -(q * d)) by (nonlinear_arith);
}

/// The origin of cluster space maps to the offset.
pub proof fn lemma_map_origin(mapper: CoordinateMapper)
    requires
        mapper.scale.wf(),
    ensures
        mapper.mapped(0, 0) == (mapper.offset.0 as int, mapper.offset.1 as int),
{
    let d = mapper.scale.denominator as int;
    vstd::arithmetic::div_mod::lemma_basic_div(d, 2 * d);
}

/// Scaling is linear up to rounding: doubling a coordinate doubles its
/// scaled value, within one unit.
pub proof fn lemma_scaled_double(scale: ScaleFactor, x: int)
    requires
        scale.wf(),
    ensures
        -1 <= scaled(scale, 2 * x) - 2 * scaled(scale, x) <= 1,
{
    let d = scale.denominator as int;
    let v = x * scale.numerator;
    assert((2 * x) * scale.numerator == 2 * v) by (nonlinear_arith)
        requires
            v == x * scale.numerator,
    ;
    let r1 = round_half_away(v, d);
    let r2 = round_half_away(2 * v, d);
    lemma_round_nearest(v, d);
    lemma_round_nearest(2 * v, d);
    let k = r2 - 2 * r1;
    assert(k * d == r2 * d - 2 * (r1 * d)) by (nonlinear_arith)
        requires
            k == r2 - 2 * r1,
    ;
    assert(-1 <= k <= 1) by (nonlinear_arith)
        requires
            d > 0,
            -3 * d <= 2 * (k * d) <= 3 * d,
    ;
}

/// The mapper is linear up to rounding: relative to the offset, the image of
/// `(2x, 2y)` is twice the image of `(x, y)`, within one unit in each
/// coordinate, whatever the scale.
pub proof fn lemma_map_double(mapper: CoordinateMapper, x: int, y: int)
    requires
        mapper.scale.wf(),
    ensures
        ({
            let once = mapper.mapped(x, y);
            let twice = mapper.mapped(2 * x, 2 * y);
            &&& -1 <= (twice.0 - mapper.offset.0) - 2 * (once.0 - mapper.offset.0) <= 1
            &&& -1 <= (twice.1 - mapper.offset.1) - 2 * (once.1 - mapper.offset.1) <= 1
        }),
{
    lemma_scaled_double(mapper.scale, x);
    lemma_scaled_double(mapper.scale, y);
}

} // verus!
