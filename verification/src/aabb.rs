//! Axis-aligned bounding boxes: union, containment, and an exact slab test.

use vstd::prelude::*;
use crate::fixed::{SCALE, T_MAX, lemma_mul_bounds};
use crate::ray::Ray;
use crate::vec3::{Point3, Vec3};

verus! {

/// An axis-aligned box given by two opposite corners, `min <= max` componentwise.
#[derive(Clone, Copy, Debug, PartialEq, Eq, Structural)]
pub struct Aabb {
    pub min: Point3,
    pub max: Point3,
}

impl Aabb {
    /// Corners are in range and ordered.  A corner may reach twice the
    /// coordinate range: a box spans `center - radius` to `center + radius`.
    pub open spec fn wf(self) -> bool {
        self.min.bounded(2 * (crate::fixed::MAX_COORD as int)) && self.max.bounded(
            2 * (crate::fixed::MAX_COORD as int),
        ) && self.min.x <= self.max.x && self.min.y <= self.max.y && self.min.z <= self.max.z
    }

    /// The box of `self` and `rhs` together: componentwise extrema.
    pub open spec fn union_spec(self, rhs: Aabb) -> Aabb {
        Aabb {
            min: Vec3 {
                x: if self.min.x <= rhs.min.x { self.min.x } else { rhs.min.x },
                y: if self.min.y <= rhs.min.y { self.min.y } else { rhs.min.y },
                z: if self.min.z <= rhs.min.z { self.min.z } else { rhs.min.z },
            },
            max: Vec3 {
                x: if self.max.x >= rhs.max.x { self.max.x } else { rhs.max.x },
                y: if self.max.y >= rhs.max.y { self.max.y } else { rhs.max.y },
                z: if self.max.z >= rhs.max.z { self.max.z } else { rhs.max.z },
            },
        }
    }

    /// Every point of `inner` lies in `self`.
    pub open spec fn contains_box(self, inner: Aabb) -> bool {
        self.min.x <= inner.min.x && inner.max.x <= self.max.x && self.min.y <= inner.min.y
            && inner.max.y <= self.max.y && self.min.z <= inner.min.z && inner.max.z <= self.max.z
    }

    pub fn new(min: Point3, max: Point3) -> (b: Self)
        ensures
            b == (Aabb { min, max }),
    {
        Aabb { min, max }
    }

    /// The smallest box holding both operands.
    pub fn union(&self, rhs: &Aabb) -> (b: Aabb)
        ensures
            b == self.union_spec(*rhs),
    {
        Aabb { min: Vec3::new_min(&self.min, &rhs.min), max: Vec3::new_max(&self.max, &rhs.max) }
    }

    /// Whether some parameter in `[t0, t1]` takes the ray inside the box,
    /// decided exactly by cross-multiplied slab comparisons.
    pub fn hit(&self, ray: &Ray, t0: i64, t1: i64) -> (res: bool)
        requires
            self.wf(),
            ray.wf(),
            -T_MAX <= t0 <= T_MAX,
            -T_MAX <= t1 <= T_MAX,
        ensures
            res == slab_hit(*self, *ray, t0 as int, t1 as int),
    {
        // An axis with zero direction constrains the origin alone.
        if ray.direction.x == 0 && !(self.min.x <= ray.origin.x && ray.origin.x <= self.max.x) {
            return false;
        }
        if ray.direction.y == 0 && !(self.min.y <= ray.origin.y && ray.origin.y <= self.max.y) {
            return false;
        }
        if ray.direction.z == 0 && !(self.min.z <= ray.origin.z && ray.origin.z <= self.max.z) {
            return false;
        }
        let c0 = axis_c(self.min.x, self.max.x, ray.origin.x, ray.direction.x);
        let c1 = axis_c(self.min.y, self.max.y, ray.origin.y, ray.direction.y);
        let c2 = axis_c(self.min.z, self.max.z, ray.origin.z, ray.direction.z);
        let c3 = (t0 as i128, t1 as i128, 1i128);
        let ghost cs = constraints(*self, *ray, t0 as int, t1 as int);
        proof {
            assert(cs[0] == spec_of(c0) && cs[1] == spec_of(c1) && cs[2] == spec_of(c2) && cs[3]
                == spec_of(c3));
        }
        let ok = pair_ok(c0, c0) && pair_ok(c0, c1) && pair_ok(c0, c2) && pair_ok(c0, c3)
            && pair_ok(c1, c0) && pair_ok(c1, c1) && pair_ok(c1, c2) && pair_ok(c1, c3)
            && pair_ok(c2, c0) && pair_ok(c2, c1) && pair_ok(c2, c2) && pair_ok(c2, c3)
            && pair_ok(c3, c0) && pair_ok(c3, c1) && pair_ok(c3, c2) && pair_ok(c3, c3);
        proof {
            if ok {
                assert forall|i: int, j: int| 0 <= i < 4 && 0 <= j < 4 implies frac_le(
                    cs[i],
                    cs[j],
                ) by {
                    assert(cs[0] == spec_of(c0) && cs[1] == spec_of(c1) && cs[2] == spec_of(c2)
                        && cs[3] == spec_of(c3));
                }
            } else {
                assert(!pairs_ok(cs)) by {
                    if pairs_ok(cs) {
                        assert(frac_le(cs[0], cs[0]) && frac_le(cs[0], cs[1]) && frac_le(
                            cs[0],
                            cs[2],
                        ) && frac_le(cs[0], cs[3]) && frac_le(cs[1], cs[0]) && frac_le(cs[1], cs[1])
                            && frac_le(cs[1], cs[2]) && frac_le(cs[1], cs[3]) && frac_le(
                            cs[2],
                            cs[0],
                        ) && frac_le(cs[2], cs[1]) && frac_le(cs[2], cs[2]) && frac_le(cs[2], cs[3])
                            && frac_le(cs[3], cs[0]) && frac_le(cs[3], cs[1]) && frac_le(
                            cs[3],
                            cs[2],
                        ) && frac_le(cs[3], cs[3]));
                    }
                }
            }
        }
        ok
    }
}

/// The view of an executable constraint triple.
pub open spec fn spec_of(c: (i128, i128, i128)) -> (int, int, int) {
    (c.0 as int, c.1 as int, c.2 as int)
}

/// One axis of the slab test, as lower and upper bounds on `t * den` with a
/// positive denominator `den`; a zero denominator marks an unconstrained axis.
pub open spec fn axis_constraint(mn: int, mx: int, o: int, d: int) -> (int, int, int) {
    if d > 0 {
        ((mn - o) * (SCALE as int), (mx - o) * (SCALE as int), d)
    } else if d < 0 {
        (-((mx - o) * (SCALE as int)), -((mn - o) * (SCALE as int)), -d)
    } else {
        (0, 0, 0)
    }
}

/// The four slab constraints of a box, a ray, and a query interval.
pub open spec fn constraints(b: Aabb, r: Ray, t0: int, t1: int) -> Seq<(int, int, int)> {
    seq![
        axis_constraint(b.min.x as int, b.max.x as int, r.origin.x as int, r.direction.x as int),
        axis_constraint(b.min.y as int, b.max.y as int, r.origin.y as int, r.direction.y as int),
        axis_constraint(b.min.z as int, b.max.z as int, r.origin.z as int, r.direction.z as int),
        (t0, t1, 1),
    ]
}

/// Axes the ray runs parallel to must already hold the origin.
pub open spec fn zero_axes_ok(b: Aabb, r: Ray) -> bool {
    (r.direction.x == 0 ==> b.min.x <= r.origin.x <= b.max.x) && (r.direction.y == 0 ==> b.min.y
        <= r.origin.y <= b.max.y) && (r.direction.z == 0 ==> b.min.z <= r.origin.z <= b.max.z)
}

/// The lower bound of one constraint stays below the upper bound of another,
/// compared by cross multiplication; unconstrained axes impose nothing.
pub open spec fn frac_le(lo_c: (int, int, int), up_c: (int, int, int)) -> bool {
    lo_c.2 == 0 || up_c.2 == 0 || lo_c.0 * up_c.2 <= up_c.1 * lo_c.2
}

/// Every lower bound stays below every upper bound.
pub open spec fn pairs_ok(cs: Seq<(int, int, int)>) -> bool {
    forall|i: int, j: int| 0 <= i < cs.len() && 0 <= j < cs.len() ==> frac_le(cs[i], cs[j])
}

/// The slab test: the three axis intervals and the query interval intersect.
pub open spec fn slab_hit(b: Aabb, r: Ray, t0: int, t1: int) -> bool {
    zero_axes_ok(b, r) && pairs_ok(constraints(b, r, t0, t1))
}

/// The ray sits inside the box at parameter `t`: each coordinate of
/// `origin + t * direction`, held exactly at squared scale, is within the slab.
pub open spec fn ray_in_box_at(b: Aabb, r: Ray, t: int) -> bool {
    &&& b.min.x * (SCALE as int) <= r.origin.x * (SCALE as int) + t * r.direction.x <= b.max.x * (
    SCALE as int)
    &&& b.min.y * (SCALE as int) <= r.origin.y * (SCALE as int) + t * r.direction.y <= b.max.y * (
    SCALE as int)
    &&& b.min.z * (SCALE as int) <= r.origin.z * (SCALE as int) + t * r.direction.z <= b.max.z * (
    SCALE as int)
}

/// One executable axis constraint.
fn axis_c(mn: i64, mx: i64, o: i64, d: i64) -> (c: (i128, i128, i128))
    requires
        -2 * crate::fixed::MAX_COORD <= mn <= 2 * crate::fixed::MAX_COORD,
        -2 * crate::fixed::MAX_COORD <= mx <= 2 * crate::fixed::MAX_COORD,
        -2 * crate::fixed::MAX_COORD <= o <= 2 * crate::fixed::MAX_COORD,
        -crate::fixed::MAX_COORD <= d <= crate::fixed::MAX_COORD,
    ensures
        spec_of(c) == axis_constraint(mn as int, mx as int, o as int, d as int),
        -4_000_000_000_000_000 <= c.0 <= 4_000_000_000_000_000,
        -4_000_000_000_000_000 <= c.1 <= 4_000_000_000_000_000,
        0 <= c.2 <= crate::fixed::MAX_COORD,
{
    proof {
        lemma_mul_bounds((mn as int) - (o as int), SCALE as int, 4_000_000_000, 1_000_000);
        lemma_mul_bounds((mx as int) - (o as int), SCALE as int, 4_000_000_000, 1_000_000);
    }
    if d > 0 {
        (((mn - o) as i128) * (SCALE as i128), ((mx - o) as i128) * (SCALE as i128), d as i128)
    } else if d < 0 {
        (
            -(((mx - o) as i128) * (SCALE as i128)),
            -(((mn - o) as i128) * (SCALE as i128)),
            -(d as i128),
        )
    } else {
        (0i128, 0i128, 0i128)
    }
}

/// One executable cross-multiplied comparison.
fn pair_ok(a: (i128, i128, i128), b: (i128, i128, i128)) -> (res: bool)
    requires
        -4_000_000_000_000_000 <= a.0 <= 4_000_000_000_000_000,
        -4_000_000_000_000_000 <= b.1 <= 4_000_000_000_000_000,
        0 <= a.2 <= crate::fixed::MAX_COORD,
        0 <= b.2 <= crate::fixed::MAX_COORD,
    ensures
        res == frac_le(spec_of(a), spec_of(b)),
{
    proof {
        lemma_mul_bounds(a.0 as int, b.2 as int, 4_000_000_000_000_000, crate::fixed::MAX_COORD as int);
        lemma_mul_bounds(b.1 as int, a.2 as int, 4_000_000_000_000_000, crate::fixed::MAX_COORD as int);
    }
    if a.2 == 0 || b.2 == 0 {
        true
    } else {
        a.0 * b.2 <= b.1 * a.2
    }
}

/// A box containing another admits the ray at every parameter the inner one does.
pub proof fn lemma_in_box_monotone(outer: Aabb, inner: Aabb, r: Ray, t: int)
    requires
        outer.contains_box(inner),
        ray_in_box_at(inner, r, t),
    ensures
        ray_in_box_at(outer, r, t),
{
}

/// The union of two boxes contains both, and any box containing both
/// contains the union: the union is the smallest common bounding box.
pub proof fn lemma_union_contains(a: Aabb, b: Aabb)
    ensures
        a.union_spec(b).contains_box(a),
        a.union_spec(b).contains_box(b),
        forall|c: Aabb| c.contains_box(a) && c.contains_box(b) ==> c.contains_box(
            #[trigger] a.union_spec(b),
        ),
{
}

/// Whenever some integer parameter in the query interval takes the ray inside
/// the box, the slab test reports a hit: pruning on it never hides one.
pub proof fn lemma_slab_complete(b: Aabb, r: Ray, t0: int, t1: int, t: int)
    requires
        ray_in_box_at(b, r, t),
        t0 <= t <= t1,
    ensures
        slab_hit(b, r, t0, t1),
{
    let cs = constraints(b, r, t0, t1);
    assert(zero_axes_ok(b, r)) by {
        if r.direction.x == 0 {
            assert(t * r.direction.x == 0) by (nonlinear_arith)
                requires r.direction.x == 0int;
        }
        if r.direction.y == 0 {
            assert(t * r.direction.y == 0) by (nonlinear_arith)
                requires r.direction.y == 0int;
        }
        if r.direction.z == 0 {
            assert(t * r.direction.z == 0) by (nonlinear_arith)
                requires r.direction.z == 0int;
        }
    }
    assert forall|k: int| 0 <= k < 4 implies bracket(cs[k], t) by {
        if k == 0 {
            lemma_axis_bracket(b.min.x as int, b.max.x as int, r.origin.x as int, r.direction.x as int, t);
        } else if k == 1 {
            lemma_axis_bracket(b.min.y as int, b.max.y as int, r.origin.y as int, r.direction.y as int, t);
        } else if k == 2 {
            lemma_axis_bracket(b.min.z as int, b.max.z as int, r.origin.z as int, r.direction.z as int, t);
        } else {
            assert(t * 1 == t) by (nonlinear_arith);
        }
    }
    assert forall|i: int, j: int| 0 <= i < 4 && 0 <= j < 4 implies frac_le(cs[i], cs[j]) by {
        assert(bracket(cs[i], t));
        assert(bracket(cs[j], t));
        lemma_frac_pair(cs[i], cs[j], t);
    }
}

/// The parameter `t` satisfies one normalized constraint.
spec fn bracket(c: (int, int, int), t: int) -> bool {
    c.2 == 0 || (c.2 > 0 && c.0 <= t * c.2 && t * c.2 <= c.1)
}

/// At an axis the ray enters, the normalized bounds bracket `t * den`.
proof fn lemma_axis_bracket(mn: int, mx: int, o: int, d: int, t: int)
    requires
        mn * (SCALE as int) <= o * (SCALE as int) + t * d <= mx * (SCALE as int),
    ensures
        bracket(axis_constraint(mn, mx, o, d), t),
{
    if d > 0 {
        assert((mn - o) * (SCALE as int) <= t * d && t * d <= (mx - o) * (SCALE as int)) by (nonlinear_arith)
            requires
                mn * (SCALE as int) <= o * (SCALE as int) + t * d,
                o * (SCALE as int) + t * d <= mx * (SCALE as int),
        ;
    } else if d < 0 {
        assert(-((mx - o) * (SCALE as int)) <= t * (-d) && t * (-d) <= -((mn - o) * (SCALE as int)))
            by (nonlinear_arith)
            requires
                mn * (SCALE as int) <= o * (SCALE as int) + t * d,
                o * (SCALE as int) + t * d <= mx * (SCALE as int),
        ;
    }
}

/// Two constraints both bracketing `t` compare favourably by cross products.
proof fn lemma_frac_pair(a: (int, int, int), b: (int, int, int), t: int)
    requires
        bracket(a, t),
        bracket(b, t),
    ensures
        frac_le(a, b),
{
    if a.2 != 0 && b.2 != 0 {
        assert(a.0 * b.2 <= b.1 * a.2) by (nonlinear_arith)
            requires
                a.0 <= t * a.2,
                t * b.2 <= b.1,
                a.2 > 0,
                b.2 > 0,
        ;
    }
}

} // verus!
