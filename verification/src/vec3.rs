//! Three-component fixed-point vectors: points, directions, and raw colors.

use vstd::prelude::*;
use crate::color::Color;
use crate::fixed::{SCALE, MAX_COORD, P_MAX, T_MAX, tdiv, fmul_spec, clamp_spec, sqrt_floor, fmul,
    div_t, div_t_wide, isqrt, clamp, lemma_tdiv_bound, lemma_mul_bounds, lemma_sqrt_floor};
use crate::rng::rand_range;

verus! {

/// A vector of three fixed-point scalars.
#[derive(Clone, Copy, Debug, PartialEq, Eq, Structural)]
pub struct Vec3 {
    pub x: i64,
    pub y: i64,
    pub z: i64,
}

/// A point in space is a vector from the origin.
pub type Point3 = Vec3;

impl Vec3 {
    /// Every component has magnitude at most `m`.
    pub open spec fn bounded(self, m: int) -> bool {
        -m <= self.x <= m && -m <= self.y <= m && -m <= self.z <= m
    }

    /// The vector lies within the coordinate range the geometry admits.
    pub open spec fn wf(self) -> bool {
        self.bounded(MAX_COORD as int)
    }

    /// The exact dot product, at squared scale (`SCALE * SCALE` per unit).
    pub open spec fn dot2(self, rhs: Vec3) -> int {
        self.x * rhs.x + self.y * rhs.y + self.z * rhs.z
    }

    /// The exact squared length, at squared scale.
    pub open spec fn ls2(self) -> int {
        self.dot2(self)
    }

    /// The fixed-point length: the square-root floor of the squared length.
    pub open spec fn len_spec(self) -> int {
        sqrt_floor(self.ls2())
    }

    /// The fixed-point unit vector: each component rescaled by the length.
    pub open spec fn unit_spec(self) -> Vec3 {
        Vec3 {
            x: tdiv(self.x * (SCALE as int), self.len_spec()) as i64,
            y: tdiv(self.y * (SCALE as int), self.len_spec()) as i64,
            z: tdiv(self.z * (SCALE as int), self.len_spec()) as i64,
        }
    }

    /// The componentwise sum, as a value.
    pub open spec fn add_spec(self, rhs: Vec3) -> Vec3 {
        Vec3 { x: (self.x + rhs.x) as i64, y: (self.y + rhs.y) as i64, z: (self.z + rhs.z) as i64 }
    }

    /// The componentwise difference, as a value.
    pub open spec fn sub_spec(self, rhs: Vec3) -> Vec3 {
        Vec3 { x: (self.x - rhs.x) as i64, y: (self.y - rhs.y) as i64, z: (self.z - rhs.z) as i64 }
    }

    /// The vector scaled by a fixed-point factor, as a value.
    pub open spec fn mul_spec(self, rhs: int) -> Vec3 {
        Vec3 {
            x: fmul_spec(self.x as int, rhs) as i64,
            y: fmul_spec(self.y as int, rhs) as i64,
            z: fmul_spec(self.z as int, rhs) as i64,
        }
    }

    /// The vector divided by a positive fixed-point scalar, as a value.
    pub open spec fn div_spec(self, rhs: int) -> Vec3 {
        Vec3 {
            x: tdiv(self.x * (SCALE as int), rhs) as i64,
            y: tdiv(self.y * (SCALE as int), rhs) as i64,
            z: tdiv(self.z * (SCALE as int), rhs) as i64,
        }
    }

    /// The cross product, componentwise rescaled, as a value.
    pub open spec fn cross_spec(self, rhs: Vec3) -> Vec3 {
        Vec3 {
            x: (fmul_spec(self.y as int, rhs.z as int) - fmul_spec(self.z as int, rhs.y as int)) as i64,
            y: (fmul_spec(self.z as int, rhs.x as int) - fmul_spec(self.x as int, rhs.z as int)) as i64,
            z: (fmul_spec(self.x as int, rhs.y as int) - fmul_spec(self.y as int, rhs.x as int)) as i64,
        }
    }

    pub fn new(x: i64, y: i64, z: i64) -> (v: Self)
        ensures
            v == (Vec3 { x, y, z }),
    {
        Vec3 { x, y, z }
    }

    /// The componentwise minimum of two vectors.
    pub fn new_min(a: &Self, b: &Self) -> (v: Self)
        ensures
            v.x == if a.x <= b.x { a.x } else { b.x },
            v.y == if a.y <= b.y { a.y } else { b.y },
            v.z == if a.z <= b.z { a.z } else { b.z },
    {
        Vec3 {
            x: if a.x <= b.x { a.x } else { b.x },
            y: if a.y <= b.y { a.y } else { b.y },
            z: if a.z <= b.z { a.z } else { b.z },
        }
    }

    /// The componentwise maximum of two vectors.
    pub fn new_max(a: &Self, b: &Self) -> (v: Self)
        ensures
            v.x == if a.x >= b.x { a.x } else { b.x },
            v.y == if a.y >= b.y { a.y } else { b.y },
            v.z == if a.z >= b.z { a.z } else { b.z },
    {
        Vec3 {
            x: if a.x >= b.x { a.x } else { b.x },
            y: if a.y >= b.y { a.y } else { b.y },
            z: if a.z >= b.z { a.z } else { b.z },
        }
    }

    /// The exact squared length at squared scale, computed widely.
    pub fn ls2_wide(&self) -> (r: i128)
        requires
            self.bounded(P_MAX as int),
        ensures
            r as int == self.ls2(),
            r >= 0,
    {
        proof {
            lemma_mul_bounds(self.x as int, self.x as int, P_MAX as int, P_MAX as int);
            lemma_mul_bounds(self.y as int, self.y as int, P_MAX as int, P_MAX as int);
            lemma_mul_bounds(self.z as int, self.z as int, P_MAX as int, P_MAX as int);
            assert((self.x as int) * (self.x as int) >= 0) by (nonlinear_arith);
            assert((self.y as int) * (self.y as int) >= 0) by (nonlinear_arith);
            assert((self.z as int) * (self.z as int) >= 0) by (nonlinear_arith);
        }
        (self.x as i128) * (self.x as i128) + (self.y as i128) * (self.y as i128) + (
        self.z as i128) * (self.z as i128)
    }

    /// The exact dot product at squared scale, computed widely.
    pub fn dot2_wide(&self, rhs: &Self) -> (r: i128)
        requires
            self.bounded(P_MAX as int),
            rhs.bounded(P_MAX as int),
        ensures
            r as int == self.dot2(*rhs),
    {
        proof {
            lemma_mul_bounds(self.x as int, rhs.x as int, P_MAX as int, P_MAX as int);
            lemma_mul_bounds(self.y as int, rhs.y as int, P_MAX as int, P_MAX as int);
            lemma_mul_bounds(self.z as int, rhs.z as int, P_MAX as int, P_MAX as int);
        }
        (self.x as i128) * (rhs.x as i128) + (self.y as i128) * (rhs.y as i128) + (
        self.z as i128) * (rhs.z as i128)
    }

    /// The squared length as a fixed-point scalar (truncated rescale).
    pub fn length_squared(&self) -> (r: i64)
        requires
            self.wf(),
        ensures
            r as int == tdiv(self.ls2(), SCALE as int),
            r >= 0,
    {
        let w = self.ls2_wide();
        proof {
            lemma_mul_bounds(self.x as int, self.x as int, MAX_COORD as int, MAX_COORD as int);
            lemma_mul_bounds(self.y as int, self.y as int, MAX_COORD as int, MAX_COORD as int);
            lemma_mul_bounds(self.z as int, self.z as int, MAX_COORD as int, MAX_COORD as int);
            lemma_tdiv_bound(w as int, SCALE as int, 3_000_000_000_000);
            crate::fixed::lemma_tdiv_shape(w as int, SCALE as int);
        }
        let q = div_t_wide(w, SCALE as i128);
        q as i64
    }

    /// The fixed-point length.
    pub fn length(&self) -> (r: i64)
        requires
            self.bounded(P_MAX as int),
        ensures
            r as int == self.len_spec(),
            0 <= r <= 7_000_000_000_000_000,
            self.ls2() > 0 ==> r >= 1,
    {
        let w = self.ls2_wide();
        let s = isqrt(w as u128);
        proof {
            lemma_mul_bounds(self.x as int, self.x as int, P_MAX as int, P_MAX as int);
            lemma_mul_bounds(self.y as int, self.y as int, P_MAX as int, P_MAX as int);
            lemma_mul_bounds(self.z as int, self.z as int, P_MAX as int, P_MAX as int);
            lemma_sqrt_floor(w as int);
            assert(s as int <= 7_000_000_000_000_000) by (nonlinear_arith)
                requires
                    (s as int) * (s as int) <= (w as int),
                    (w as int) <= 3 * (P_MAX as int) * (P_MAX as int),
                    P_MAX as int == 4_000_000_000_000_000,
                    s as int >= 0,
            ;
            if self.ls2() > 0 {
                assert(s as int >= 1) by (nonlinear_arith)
                    requires
                        (w as int) < ((s as int) + 1) * ((s as int) + 1),
                        w as int >= 1,
                        s as int >= 0,
                ;
            }
        }
        s as i64
    }

    /// The exact dot product as a fixed-point scalar (truncated rescale).
    pub fn dot(&self, rhs: &Self) -> (r: i64)
        requires
            self.wf(),
            rhs.wf(),
        ensures
            r as int == tdiv(self.dot2(*rhs), SCALE as int),
    {
        proof {
            lemma_mul_bounds(self.x as int, rhs.x as int, MAX_COORD as int, MAX_COORD as int);
            lemma_mul_bounds(self.y as int, rhs.y as int, MAX_COORD as int, MAX_COORD as int);
            lemma_mul_bounds(self.z as int, rhs.z as int, MAX_COORD as int, MAX_COORD as int);
            lemma_tdiv_bound(
                self.dot2(*rhs),
                SCALE as int,
                3 * (MAX_COORD as int) * (MAX_COORD as int),
            );
            lemma_mul_bounds(MAX_COORD as int, MAX_COORD as int, MAX_COORD as int, MAX_COORD as int);
        }
        let w: i128 = (self.x as i128) * (rhs.x as i128) + (self.y as i128) * (rhs.y as i128) + (
        self.z as i128) * (rhs.z as i128);
        let q = div_t_wide(w, SCALE as i128);
        q as i64
    }

    /// The cross product, each component rescaled to fixed point.
    pub fn cross(&self, rhs: &Self) -> (r: Self)
        requires
            self.wf(),
            rhs.wf(),
        ensures
            r.x as int == fmul_spec(self.y as int, rhs.z as int) - fmul_spec(
                self.z as int,
                rhs.y as int,
            ),
            r.y as int == fmul_spec(self.z as int, rhs.x as int) - fmul_spec(
                self.x as int,
                rhs.z as int,
            ),
            r.z as int == fmul_spec(self.x as int, rhs.y as int) - fmul_spec(
                self.y as int,
                rhs.x as int,
            ),
            r == self.cross_spec(*rhs),
            r.bounded(2 * (MAX_COORD as int) * (MAX_COORD as int) / (SCALE as int)),
    {
        proof {
            lemma_cross_part(self.y as int, rhs.z as int);
            lemma_cross_part(self.z as int, rhs.y as int);
            lemma_cross_part(self.z as int, rhs.x as int);
            lemma_cross_part(self.x as int, rhs.z as int);
            lemma_cross_part(self.x as int, rhs.y as int);
            lemma_cross_part(self.y as int, rhs.x as int);
        }
        Vec3 {
            x: fmul(self.y, rhs.z) - fmul(self.z, rhs.y),
            y: fmul(self.z, rhs.x) - fmul(self.x, rhs.z),
            z: fmul(self.x, rhs.y) - fmul(self.y, rhs.x),
        }
    }

    /// The unit vector in the same direction; components end in `[-SCALE, SCALE]`.
    pub fn unit(&self) -> (r: Self)
        requires
            self.bounded(P_MAX as int),
            self.ls2() > 0,
        ensures
            r == self.unit_spec(),
            r.bounded(SCALE as int),
            self.len_spec() >= SCALE ==> (SCALE as int) * (SCALE as int) - 6 * (SCALE as int)
                <= r.ls2() <= ((SCALE as int) + 1) * ((SCALE as int) + 1),
    {
        let len = self.length();
        proof {
            lemma_sqrt_floor(self.ls2());
            lemma_component_le_len(*self);
            lemma_unit_comp(self.x as int, len as int);
            lemma_unit_comp(self.y as int, len as int);
            lemma_unit_comp(self.z as int, len as int);
            if self.len_spec() >= SCALE {
                lemma_unit_length(*self);
            }
        }
        let rx = div_t_wide((self.x as i128) * (SCALE as i128), len as i128) as i64;
        let ry = div_t_wide((self.y as i128) * (SCALE as i128), len as i128) as i64;
        let rz = div_t_wide((self.z as i128) * (SCALE as i128), len as i128) as i64;
        Vec3 { x: rx, y: ry, z: rz }
    }

    /// The componentwise sum.
    pub fn add(&self, rhs: &Self) -> (r: Self)
        requires
            self.bounded(P_MAX as int),
            rhs.bounded(P_MAX as int),
        ensures
            r.x == self.x + rhs.x,
            r.y == self.y + rhs.y,
            r.z == self.z + rhs.z,
            r == self.add_spec(*rhs),
    {
        Vec3 { x: self.x + rhs.x, y: self.y + rhs.y, z: self.z + rhs.z }
    }

    /// The componentwise difference.
    pub fn sub(&self, rhs: &Self) -> (r: Self)
        requires
            self.bounded(P_MAX as int),
            rhs.bounded(P_MAX as int),
        ensures
            r.x == self.x - rhs.x,
            r.y == self.y - rhs.y,
            r.z == self.z - rhs.z,
            r == self.sub_spec(*rhs),
    {
        Vec3 { x: self.x - rhs.x, y: self.y - rhs.y, z: self.z - rhs.z }
    }

    /// The vector scaled by a fixed-point factor.
    pub fn mul(&self, rhs: i64) -> (r: Self)
        requires
            self.bounded(P_MAX as int),
            -MAX_COORD <= rhs <= MAX_COORD,
        ensures
            r.x as int == fmul_spec(self.x as int, rhs as int),
            r.y as int == fmul_spec(self.y as int, rhs as int),
            r.z as int == fmul_spec(self.z as int, rhs as int),
            r == self.mul_spec(rhs as int),
    {
        proof {
            lemma_scale_part(self.x as int, rhs as int);
            lemma_scale_part(self.y as int, rhs as int);
            lemma_scale_part(self.z as int, rhs as int);
        }
        Vec3 { x: fmul(self.x, rhs), y: fmul(self.y, rhs), z: fmul(self.z, rhs) }
    }

    /// The vector divided by a positive fixed-point scalar.
    pub fn div(&self, rhs: i64) -> (r: Self)
        requires
            self.wf(),
            rhs >= 1,
        ensures
            r.x as int == tdiv(self.x * (SCALE as int), rhs as int),
            r.y as int == tdiv(self.y * (SCALE as int), rhs as int),
            r.z as int == tdiv(self.z * (SCALE as int), rhs as int),
            r == self.div_spec(rhs as int),
    {
        proof {
            lemma_div_part(self.x as int, rhs as int);
            lemma_div_part(self.y as int, rhs as int);
            lemma_div_part(self.z as int, rhs as int);
        }
        let rx = div_t_wide((self.x as i128) * (SCALE as i128), rhs as i128) as i64;
        let ry = div_t_wide((self.y as i128) * (SCALE as i128), rhs as i128) as i64;
        let rz = div_t_wide((self.z as i128) * (SCALE as i128), rhs as i128) as i64;
        Vec3 { x: rx, y: ry, z: rz }
    }

    /// The opposite vector.
    pub fn neg(&self) -> (r: Self)
        requires
            self.bounded(P_MAX as int),
        ensures
            r.x == -self.x,
            r.y == -self.y,
            r.z == -self.z,
    {
        Vec3 { x: -self.x, y: -self.y, z: -self.z }
    }

    /// Flips the vector in place.
    pub fn reverse(&mut self)
        requires
            old(self).bounded(P_MAX as int),
        ensures
            final(self).x == -old(self).x,
            final(self).y == -old(self).y,
            final(self).z == -old(self).z,
    {
        self.x = -self.x;
        self.y = -self.y;
        self.z = -self.z;
    }

    /// The component at an axis index; only `{0, 1, 2}` address a component.
    pub fn index(&self, index: usize) -> (r: i64)
        requires
            index < 3,
        ensures
            index == 0 ==> r == self.x,
            index == 1 ==> r == self.y,
            index == 2 ==> r == self.z,
    {
        if index == 0 {
            self.x
        } else if index == 1 {
            self.y
        } else {
            self.z
        }
    }

    /// One accumulated sample channel, averaged over the sample count,
    /// optionally gamma corrected, and clamped into the displayable range.
    pub open spec fn into_color_chan(x: int, n: int, gamma: bool) -> int {
        let d = tdiv(x, n);
        let e = if gamma {
            if d <= 0 {
                0
            } else {
                sqrt_floor(d * (SCALE as int))
            }
        } else {
            d
        };
        clamp_spec(e, 0, SCALE as int)
    }

    /// Averages an accumulated sample sum into a displayable color, with
    /// optional square-root gamma correction.
    pub fn into_color(self, samples: usize, gamma: bool) -> (c: Color)
        requires
            1 <= samples <= 1_000_000,
            self.bounded(T_MAX as int),
        ensures
            c == Color::RgbF(
                crate::color::RgbFloat {
                    r: Self::into_color_chan(self.x as int, samples as int, gamma) as i64,
                    g: Self::into_color_chan(self.y as int, samples as int, gamma) as i64,
                    b: Self::into_color_chan(self.z as int, samples as int, gamma) as i64,
                },
            ),
    {
        let n = samples as i64;
        let r = Self::into_color_channel(self.x, n, gamma);
        let g = Self::into_color_channel(self.y, n, gamma);
        let b = Self::into_color_channel(self.z, n, gamma);
        Color::newf(r, g, b)
    }

    /// One channel of [`Vec3::into_color`].
    fn into_color_channel(x: i64, n: i64, gamma: bool) -> (c: i64)
        requires
            1 <= n <= 1_000_000,
            -T_MAX <= x <= T_MAX,
        ensures
            c as int == Self::into_color_chan(x as int, n as int, gamma),
    {
        proof {
            lemma_tdiv_bound(x as int, n as int, T_MAX as int);
        }
        let d = div_t(x, n);
        let e: i64 = if gamma {
            if d <= 0 {
                0
            } else {
                proof {
                    lemma_mul_bounds(d as int, SCALE as int, T_MAX as int, SCALE as int);
                    lemma_sqrt_floor((d as int) * (SCALE as int));
                    assert(sqrt_floor((d as int) * (SCALE as int)) <= 2_000_000_000_000) by (nonlinear_arith)
                        requires
                            sqrt_floor((d as int) * (SCALE as int)) >= 0,
                            sqrt_floor((d as int) * (SCALE as int)) * sqrt_floor(
                                (d as int) * (SCALE as int),
                            ) <= (d as int) * (SCALE as int),
                            (d as int) * (SCALE as int) <= (T_MAX as int) * (SCALE as int),
                            T_MAX as int == 1_000_000_000_000,
                            SCALE as int == 1_000_000,
                    ;
                }
                isqrt(((d as i128) * (SCALE as i128)) as u128) as i64
            }
        } else {
            d
        };
        clamp(e, 0, SCALE)
    }

    /// The float-form channels of a color, as a raw vector for accumulation.
    pub fn from_color(c: &Color) -> (v: Self)
        requires
            crate::color::color_bounded(*c),
        ensures
            v.x as int == crate::color::fr(*c),
            v.y as int == crate::color::fg(*c),
            v.z as int == crate::color::fb(*c),
    {
        let f = c.float_form();
        Vec3 { x: f.r, y: f.g, z: f.b }
    }

    /// A sample drawn uniformly from the cube of side two centred at the origin.
    pub fn random_in_unit_box() -> (v: Self)
        ensures
            -SCALE <= v.x < SCALE,
            -SCALE <= v.y < SCALE,
            -SCALE <= v.z < SCALE,
    {
        Vec3 {
            x: rand_range(-SCALE, SCALE),
            y: rand_range(-SCALE, SCALE),
            z: rand_range(-SCALE, SCALE),
        }
    }

    /// A sample drawn from the open unit ball, by rejection from the cube.
    /// After a generous number of failed draws (vanishingly unlikely) the
    /// centre of the ball is returned.
    pub fn random_in_unit_sphere() -> (v: Self)
        ensures
            v.bounded(SCALE as int),
            v.ls2() < (SCALE as int) * (SCALE as int),
    {
        let mut i: u32 = 0;
        while i < 64
            invariant
                i <= 64,
            decreases 64 - i,
        {
            let p = Self::random_in_unit_box();
            let w = p.ls2_wide();
            if w < (SCALE as i128) * (SCALE as i128) {
                return p;
            }
            i = i + 1;
        }
        Vec3 { x: 0, y: 0, z: 0 }
    }

    /// A vector of unit length: the direction of a nonzero ball sample.
    /// After a generous number of zero draws (vanishingly unlikely) a fixed
    /// axis direction is returned.
    pub fn random_unit() -> (v: Self)
        ensures
            v.bounded(SCALE as int),
    {
        let mut i: u32 = 0;
        while i < 64
            invariant
                i <= 64,
            decreases 64 - i,
        {
            let p = Self::random_in_unit_sphere();
            let w = p.ls2_wide();
            if w > 0 {
                return p.unit();
            }
            i = i + 1;
        }
        Vec3 { x: SCALE, y: 0, z: 0 }
    }

    /// A unit vector in the half-space a given direction points into.
    pub fn random_unit_dir(dir: &Self) -> (v: Self)
        requires
            dir.wf(),
        ensures
            v.bounded(SCALE as int),
    {
        let u = Self::random_unit();
        if u.dot(dir) > 0 {
            u
        } else {
            u.neg()
        }
    }
}

/// One axis of the truncated normalization: the rescaled component, taken
/// back to the length's scale, sits within one length-step of the exact
/// product, so its square is off by at most `2 * SCALE * l^2`.
proof fn lemma_unit_axis(x: int, l: int)
    requires
        l >= 1,
        -l <= x <= l,
    ensures
        ({
            let q = tdiv(x * (SCALE as int), l);
            (q * l) * (q * l) <= (x * (SCALE as int)) * (x * (SCALE as int)) && (q * l) * (q * l)
                >= (x * (SCALE as int)) * (x * (SCALE as int)) - 2 * (SCALE as int) * (l * l)
        }),
    decreases (if x < 0 { 1int } else { 0int }),
{
    let s = SCALE as int;
    let q = tdiv(x * s, l);
    if x >= 0 {
        assert(x * s >= 0) by (nonlinear_arith)
            requires x >= 0 && s > 0;
        crate::fixed::lemma_tdiv_shape(x * s, l);
        assert(l * q == q * l) by (nonlinear_arith);
        assert(l * (q + 1) == l * q + l) by (nonlinear_arith);
        if x * s < l {
            assert(q == 0) by {
                if q >= 1 {
                    assert(l * q >= l) by (nonlinear_arith)
                        requires l >= 1 && q >= 1;
                }
            }
            assert((q * l) * (q * l) == 0) by (nonlinear_arith)
                requires q == 0;
            assert((x * s) * (x * s) >= 0) by (nonlinear_arith);
            assert((x * s) * (x * s) <= l * (x * s)) by (nonlinear_arith)
                requires 0 <= x * s && x * s < l;
            assert(x * s <= l * s) by (nonlinear_arith)
                requires x <= l && s > 0;
            assert(l * (x * s) <= l * (l * s)) by (nonlinear_arith)
                requires l >= 0 && x * s <= l * s;
            assert(l * (l * s) <= 2 * s * (l * l)) by (nonlinear_arith)
                requires l >= 0 && s >= 0;
        } else {
            assert(q * l > x * s - l);
            assert(q * l <= x * s);
            assert((q * l) * (q * l) <= (x * s) * (x * s)) by (nonlinear_arith)
                requires 0 <= q * l && q * l <= x * s;
            assert(q >= 1) by {
                if q <= 0 {
                    assert(l * q <= 0) by (nonlinear_arith)
                        requires l >= 1 && q <= 0;
                }
            }
            assert(q * l >= 0) by (nonlinear_arith)
                requires q >= 0 && l >= 0;
            assert((q * l) * (q * l) >= (x * s - l) * (x * s - l)) by (nonlinear_arith)
                requires q * l > x * s - l && x * s - l >= 0 && q * l >= 0;
            assert((x * s - l) * (x * s - l) >= (x * s) * (x * s) - 2 * s * (l * l)) by (nonlinear_arith)
                requires x * s <= l * s && l >= 1 && s >= 1 && x * s >= 0;
        }
    } else {
        lemma_unit_axis(-x, l);
        let p = tdiv((-x) * s, l);
        assert((-x) * s == -(x * s)) by (nonlinear_arith);
        assert(q == -p);
        assert((q * l) * (q * l) == (p * l) * (p * l)) by (nonlinear_arith)
            requires q == -p;
        assert((x * s) * (x * s) == ((-x) * s) * ((-x) * s)) by (nonlinear_arith);
    }
}

/// For a vector at least one unit long, the truncated unit vector's squared
/// length is within six parts per million of a perfect unit, one part over.
pub proof fn lemma_unit_length(v: Vec3)
    requires
        v.bounded(P_MAX as int),
        v.len_spec() >= SCALE,
    ensures
        (SCALE as int) * (SCALE as int) - 6 * (SCALE as int) <= v.unit_spec().ls2(),
        v.unit_spec().ls2() <= ((SCALE as int) + 1) * ((SCALE as int) + 1),
{
    let s = SCALE as int;
    let l = v.len_spec();
    let n = v.ls2();
    assert(v.x * v.x >= 0 && v.y * v.y >= 0 && v.z * v.z >= 0) by (nonlinear_arith);
    assert(l * l >= 1) by (nonlinear_arith)
        requires l >= 1;
    lemma_mul_bounds(v.x as int, v.x as int, P_MAX as int, P_MAX as int);
    lemma_mul_bounds(v.y as int, v.y as int, P_MAX as int, P_MAX as int);
    lemma_mul_bounds(v.z as int, v.z as int, P_MAX as int, P_MAX as int);
    lemma_sqrt_floor(n);
    assert(l <= 7_000_000_000_000_000) by (nonlinear_arith)
        requires
            l * l <= n,
            n <= 3 * (P_MAX as int) * (P_MAX as int),
            P_MAX as int == 4_000_000_000_000_000,
            l >= 0,
    ;
    lemma_component_le_len(v);
    lemma_unit_axis(v.x as int, l);
    lemma_unit_axis(v.y as int, l);
    lemma_unit_axis(v.z as int, l);
    let qx = tdiv(v.x * s, l);
    let qy = tdiv(v.y * s, l);
    let qz = tdiv(v.z * s, l);
    lemma_unit_comp(v.x as int, l);
    lemma_unit_comp(v.y as int, l);
    lemma_unit_comp(v.z as int, l);
    assert(v.unit_spec().ls2() == qx * qx + qy * qy + qz * qz);
    let a = qx * qx + qy * qy + qz * qz;
    // Scale the sum of squares back to the length's scale.
    assert((qx * l) * (qx * l) == (l * l) * (qx * qx)) by (nonlinear_arith);
    assert((qy * l) * (qy * l) == (l * l) * (qy * qy)) by (nonlinear_arith);
    assert((qz * l) * (qz * l) == (l * l) * (qz * qz)) by (nonlinear_arith);
    assert((v.x * s) * (v.x * s) == (s * s) * (v.x * v.x)) by (nonlinear_arith);
    assert((v.y * s) * (v.y * s) == (s * s) * (v.y * v.y)) by (nonlinear_arith);
    assert((v.z * s) * (v.z * s) == (s * s) * (v.z * v.z)) by (nonlinear_arith);
    assert((l * l) * a == (l * l) * (qx * qx) + (l * l) * (qy * qy) + (l * l) * (qz * qz))
        by (nonlinear_arith)
        requires a == qx * qx + qy * qy + qz * qz;
    assert((s * s) * n == (s * s) * (v.x * v.x) + (s * s) * (v.y * v.y) + (s * s) * (v.z * v.z))
        by (nonlinear_arith)
        requires n == v.x * v.x + v.y * v.y + v.z * v.z;
    assert((l * l) * a == (qx * l) * (qx * l) + (qy * l) * (qy * l) + (qz * l) * (qz * l));
    assert((s * s) * n == (v.x * s) * (v.x * s) + (v.y * s) * (v.y * s) + (v.z * s) * (v.z * s));
    assert((l * l) * a <= (s * s) * n);
    assert((l * l) * a >= (s * s) * n - 6 * s * (l * l)) by (nonlinear_arith)
        requires
            (l * l) * a == (qx * l) * (qx * l) + (qy * l) * (qy * l) + (qz * l) * (qz * l),
            (s * s) * n == (v.x * s) * (v.x * s) + (v.y * s) * (v.y * s) + (v.z * s) * (v.z * s),
            (qx * l) * (qx * l) >= (v.x * s) * (v.x * s) - 2 * s * (l * l),
            (qy * l) * (qy * l) >= (v.y * s) * (v.y * s) - 2 * s * (l * l),
            (qz * l) * (qz * l) >= (v.z * s) * (v.z * s) - 2 * s * (l * l),
    ;
    // The exact squared length sits between the two neighbouring squares.
    assert((s * s) * n >= (s * s) * (l * l)) by (nonlinear_arith)
        requires n >= l * l && s * s >= 0;
    assert((s * s) * n <= (s * s) * ((l + 1) * (l + 1) - 1)) by (nonlinear_arith)
        requires n <= (l + 1) * (l + 1) - 1 && s * s >= 0;
    // Lower bound: the sum cannot fall more than six steps short of unit.
    if a < s * s - 6 * s {
        assert((l * l) * a <= (l * l) * (s * s - 6 * s - 1)) by (nonlinear_arith)
            requires a <= s * s - 6 * s - 1 && l * l >= 0;
        assert((l * l) * (s * s - 6 * s - 1) < (l * l) * (s * s) - 6 * s * (l * l)) by (nonlinear_arith)
            requires l * l >= 1;
        assert((l * l) * (s * s) == (s * s) * (l * l)) by (nonlinear_arith);
        assert(false);
    }
    // Upper bound: the sum cannot exceed one step over unit.
    if a > (s + 1) * (s + 1) {
        assert((l * l) * a >= (l * l) * ((s + 1) * (s + 1) + 1)) by (nonlinear_arith)
            requires a >= (s + 1) * (s + 1) + 1 && l * l >= 0;
        assert((l * l) * ((s + 1) * (s + 1)) - (s * s) * ((l + 1) * (l + 1)) == (l - s) * (2 * l
            * s + l + s)) by (nonlinear_arith);
        assert((l - s) * (2 * l * s + l + s) >= 0) by (nonlinear_arith)
            requires l >= s && s >= 1;
        assert((l * l) * ((s + 1) * (s + 1) + 1) == (l * l) * ((s + 1) * (s + 1)) + l
            * l) by (nonlinear_arith);
        assert((s * s) * ((l + 1) * (l + 1) - 1) == (s * s) * ((l + 1) * (l + 1)) - s
            * s) by (nonlinear_arith);
        assert(false);
    }
}

/// Reversing one side of a dot product reverses its sign.
pub proof fn lemma_dot2_neg(d: Vec3, a: Vec3, b: Vec3)
    requires
        b.x == -(a.x as int),
        b.y == -(a.y as int),
        b.z == -(a.z as int),
    ensures
        d.dot2(b) == -d.dot2(a),
{
    assert((d.x as int) * (b.x as int) == -((d.x as int) * (a.x as int))) by (nonlinear_arith)
        requires (b.x as int) == -(a.x as int);
    assert((d.y as int) * (b.y as int) == -((d.y as int) * (a.y as int))) by (nonlinear_arith)
        requires (b.y as int) == -(a.y as int);
    assert((d.z as int) * (b.z as int) == -((d.z as int) * (a.z as int))) by (nonlinear_arith)
        requires (b.z as int) == -(a.z as int);
}

/// Each component of a vector is bounded by the vector's length.
proof fn lemma_component_le_len(v: Vec3)
    ensures
        -v.len_spec() <= v.x <= v.len_spec(),
        -v.len_spec() <= v.y <= v.len_spec(),
        -v.len_spec() <= v.z <= v.len_spec(),
{
    assert(v.x * v.x >= 0 && v.y * v.y >= 0 && v.z * v.z >= 0) by (nonlinear_arith);
    lemma_sqrt_floor(v.ls2());
    let l = v.len_spec();
    assert(v.x * v.x <= v.ls2() && v.y * v.y <= v.ls2() && v.z * v.z <= v.ls2());
    assert(-l <= v.x <= l) by (nonlinear_arith)
        requires v.x * v.x < (l + 1) * (l + 1) && l >= 0;
    assert(-l <= v.y <= l) by (nonlinear_arith)
        requires v.y * v.y < (l + 1) * (l + 1) && l >= 0;
    assert(-l <= v.z <= l) by (nonlinear_arith)
        requires v.z * v.z < (l + 1) * (l + 1) && l >= 0;
}

/// A component no larger than the length divides into a unit-range value.
proof fn lemma_unit_comp(x: int, len: int)
    requires
        1 <= len <= 10_000_000_000_000_000,
        -len <= x <= len,
    ensures
        -(SCALE as int) <= tdiv(x * (SCALE as int), len) <= SCALE as int,
        x * (SCALE as int) > i128::MIN as int,
        tdiv(x * (SCALE as int), len) == tdiv(x * (SCALE as int), len) as i64,
{
    assert(-(len * (SCALE as int)) <= x * (SCALE as int) <= len * (SCALE as int)) by (nonlinear_arith)
        requires -len <= x <= len && SCALE as int > 0;
    assert(len * (SCALE as int) == (SCALE as int) * len) by (nonlinear_arith);
    lemma_tdiv_bound(x * (SCALE as int), len, SCALE as int);
}

/// Bounds needed to take one fixed-point product inside `cross`.
proof fn lemma_cross_part(a: int, b: int)
    requires
        -MAX_COORD <= a <= MAX_COORD,
        -MAX_COORD <= b <= MAX_COORD,
    ensures
        -(i64::MAX as int) * (SCALE as int) <= a * b <= (i64::MAX as int) * (SCALE as int),
        -1_000_000_000_000 <= fmul_spec(a, b) <= 1_000_000_000_000,
{
    lemma_mul_bounds(a, b, MAX_COORD as int, MAX_COORD as int);
    lemma_tdiv_bound(a * b, SCALE as int, 1_000_000_000_000);
}

/// Bounds needed to scale one component inside `mul`.
proof fn lemma_scale_part(a: int, b: int)
    requires
        -P_MAX <= a <= P_MAX,
        -MAX_COORD <= b <= MAX_COORD,
    ensures
        -(i64::MAX as int) * (SCALE as int) <= a * b <= (i64::MAX as int) * (SCALE as int),
{
    lemma_mul_bounds(a, b, P_MAX as int, MAX_COORD as int);
}

/// Bounds needed to divide one component inside `div`.
proof fn lemma_div_part(a: int, b: int)
    requires
        -MAX_COORD <= a <= MAX_COORD,
        b >= 1,
    ensures
        a * (SCALE as int) > i128::MIN as int,
        -(P_MAX as int) <= tdiv(a * (SCALE as int), b) <= P_MAX as int,
{
    lemma_mul_bounds(a, SCALE as int, MAX_COORD as int, SCALE as int);
    assert(-((P_MAX as int) * b) <= a * (SCALE as int) <= (P_MAX as int) * b) by (nonlinear_arith)
        requires
            -(MAX_COORD as int) * (SCALE as int) <= a * (SCALE as int) <= (MAX_COORD as int) * (
            SCALE as int),
            b >= 1,
            (P_MAX as int) >= (MAX_COORD as int) * (SCALE as int) / 1_000_000_000,
            P_MAX as int == 4_000_000_000_000_000,
            MAX_COORD as int == 1_000_000_000,
            SCALE as int == 1_000_000,
    ;
    lemma_tdiv_bound(a * (SCALE as int), b, P_MAX as int);
}

} // verus!
