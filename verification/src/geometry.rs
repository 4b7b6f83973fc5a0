//! Geometries behind one capability interface, and the flat list of them.

use vstd::prelude::*;
use crate::aabb::Aabb;
use crate::fixed::{SCALE, MAX_COORD, T_MAX};
use crate::hit::{record_spec, HitRecord};
use crate::material::Material;
use crate::ray::Ray;
use crate::sphere::Sphere;
use crate::vec3::{Point3, Vec3};

verus! {

/// A geometric primitive; the minimal set holds spheres.
#[derive(Clone, Copy, Debug, PartialEq, Eq, Structural)]
pub enum Geometry {
    Sphere(Sphere),
}

impl Geometry {
    pub open spec fn wf(self) -> bool {
        match self {
            Geometry::Sphere(s) => s.wf(),
        }
    }

    /// The primitive's bounding box.
    pub open spec fn bbox_spec(self) -> Aabb {
        match self {
            Geometry::Sphere(s) => s.bbox_spec(),
        }
    }

    /// The surface normal at a point.
    pub open spec fn normal_spec(self, p: Vec3) -> Vec3 {
        match self {
            Geometry::Sphere(s) => s.normal_spec(p),
        }
    }

    /// The surface parametrization at a point.
    pub open spec fn uv_spec(self, p: Vec3) -> (int, int) {
        match self {
            Geometry::Sphere(s) => s.uv_spec(p),
        }
    }

    /// The surface material.
    pub open spec fn material_spec(self) -> Material {
        match self {
            Geometry::Sphere(s) => s.material,
        }
    }

    /// The parameter the primitive's intersection test reports.
    pub open spec fn hit_t(self, r: Ray, t0: int, t1: int) -> Option<int> {
        match self {
            Geometry::Sphere(s) => s.hit_t(r, t0, t1),
        }
    }

    /// The surface normal at `p`.
    pub fn normal(&self, p: &Point3) -> (n: Vec3)
        requires
            self.wf(),
            p.bounded(2_000_000_000_000_000),
        ensures
            n == self.normal_spec(*p),
            n.bounded(SCALE as int),
    {
        match self {
            Geometry::Sphere(s) => s.normal(p),
        }
    }

    /// The surface material.
    pub fn material(&self) -> (m: Material)
        ensures
            m == self.material_spec(),
    {
        match self {
            Geometry::Sphere(s) => s.material(),
        }
    }

    /// The surface parametrization at `p`.
    pub fn uv(&self, p: &Point3) -> (r: (i64, i64))
        requires
            self.wf(),
            p.bounded(2_000_000_000_000_000),
        ensures
            (r.0 as int, r.1 as int) == self.uv_spec(*p),
            0 <= r.0 <= SCALE,
            0 <= r.1 <= SCALE,
    {
        match self {
            Geometry::Sphere(s) => s.uv(p),
        }
    }

    /// The primitive's bounding box over a time interval.
    pub fn bbox(&self, time_from: i64, time_to: i64) -> (b: Option<Aabb>)
        requires
            self.wf(),
        ensures
            b == Some(self.bbox_spec()),
            self.bbox_spec().wf(),
    {
        match self {
            Geometry::Sphere(s) => s.bbox(time_from, time_to),
        }
    }

    /// Intersects the ray with the primitive over `[t0, t1)`.
    pub fn hit(&self, ray: &Ray, t0: i64, t1: i64) -> (res: Option<HitRecord>)
        requires
            self.wf(),
            ray.wf(),
            -T_MAX <= t0 <= T_MAX,
            -T_MAX <= t1 <= T_MAX,
        ensures
            match self.hit_t(*ray, t0 as int, t1 as int) {
                Option::None => res is None,
                Option::Some(t) => res == Some(record_spec(*ray, *self, t)),
            },
            match res {
                Option::Some(h) => ray.direction.dot2(h.normal) <= 0 && h.normal.bounded(
                    SCALE as int,
                ) && h.point.bounded(2 * (MAX_COORD as int)) && t0 <= h.unit < t1
                    && h.material == self.material_spec(),
                Option::None => true,
            },
    {
        match self {
            Geometry::Sphere(s) => s.hit(ray, t0, t1),
        }
    }
}

/// Shifts the index of a located hit by `n` places.
pub open spec fn bump(o: Option<(int, int)>, n: int) -> Option<(int, int)> {
    match o {
        Option::None => Option::None,
        Option::Some((i, t)) => Option::Some((i + n, t)),
    }
}

/// The brute-force closest hit over a sequence of geometries: each one is
/// tested in turn against the interval shrunk to the best parameter so far,
/// so a later geometry wins only with a strictly closer hit.  The result is
/// the index of the winning geometry and its parameter.
pub open spec fn closest_hit_t(objs: Seq<Geometry>, r: Ray, t0: int, t1: int) -> Option<(int, int)>
    decreases objs.len(),
{
    if objs.len() == 0 {
        Option::None
    } else {
        match objs[0].hit_t(r, t0, t1) {
            Option::None => bump(closest_hit_t(objs.skip(1), r, t0, t1), 1),
            Option::Some(t) => match closest_hit_t(objs.skip(1), r, t0, t) {
                Option::None => Option::Some((0, t)),
                Option::Some((i, u)) => Option::Some((i + 1, u)),
            },
        }
    }
}

/// A located hit points into the sequence, within the queried interval.
pub proof fn lemma_closest_in_range(objs: Seq<Geometry>, r: Ray, t0: int, t1: int)
    ensures
        match closest_hit_t(objs, r, t0, t1) {
            Option::None => true,
            Option::Some((i, u)) => 0 <= i < objs.len() && t0 <= u < t1 && objs[i].hit_t(
                r,
                t0,
                u,
            ) is None,
        },
    decreases objs.len(),
{
    if objs.len() > 0 {
        match objs[0].hit_t(r, t0, t1) {
            Option::None => {
                lemma_closest_in_range(objs.skip(1), r, t0, t1);
                lemma_hit_t_shape(objs[0], r, t0, t1);
            },
            Option::Some(t) => {
                lemma_hit_t_shape(objs[0], r, t0, t1);
                lemma_closest_in_range(objs.skip(1), r, t0, t);
                match closest_hit_t(objs.skip(1), r, t0, t) {
                    Option::None => {
                        lemma_hit_t_restrict(objs[0], r, t0, t1, t);
                    },
                    Option::Some((i, u)) => {},
                }
            },
        }
    }
}

/// The interval bounds of an accepted parameter, and interval restriction:
/// shrinking the upper bound to the accepted parameter itself gives a miss.
pub proof fn lemma_hit_t_shape(g: Geometry, r: Ray, t0: int, t1: int)
    ensures
        match g.hit_t(r, t0, t1) {
            Option::None => true,
            Option::Some(t) => t0 <= t < t1 && crate::aabb::ray_in_box_at(g.bbox_spec(), r, t),
        },
{
}

/// An accepted parameter is never returned again once the interval stops
/// short of it: querying `[t0, t)` for the hit at `t` reports a miss.
pub proof fn lemma_hit_t_restrict(g: Geometry, r: Ray, t0: int, t1: int, t: int)
    requires
        g.hit_t(r, t0, t1) == Option::Some(t),
    ensures
        g.hit_t(r, t0, t) is None,
{
    match g {
        Geometry::Sphere(s) => {
            if Sphere::a_spec(r) > 0 && s.disc_spec(r) >= 0 {
                lemma_roots_ordered(s, r);
            }
        },
    }
}

/// The nearer root never exceeds the farther one.
proof fn lemma_roots_ordered(s: Sphere, r: Ray)
    requires
        Sphere::a_spec(r) > 0,
        s.disc_spec(r) >= 0,
    ensures
        s.root1_spec(r) <= s.root2_spec(r),
{
    crate::fixed::lemma_sqrt_floor(s.disc_spec(r));
    let hb = s.half_b_spec(r);
    let sq = crate::fixed::sqrt_floor(s.disc_spec(r));
    let a = Sphere::a_spec(r);
    assert((-hb - sq) * (SCALE as int) <= (-hb + sq) * (SCALE as int)) by (nonlinear_arith)
        requires sq >= 0 && (SCALE as int) > 0;
    lemma_tdiv_monotone((-hb - sq) * (SCALE as int), (-hb + sq) * (SCALE as int), a);
}

/// Truncating division by a positive divisor is monotone.
pub proof fn lemma_tdiv_monotone(x: int, y: int, b: int)
    requires
        b > 0,
        x <= y,
    ensures
        crate::fixed::tdiv(x, b) <= crate::fixed::tdiv(y, b),
{
    crate::fixed::lemma_tdiv_shape(x, b);
    crate::fixed::lemma_tdiv_shape(y, b);
    let qx = crate::fixed::tdiv(x, b);
    let qy = crate::fixed::tdiv(y, b);
    if qx > qy {
        assert(b * qx >= b * (qy + 1)) by (nonlinear_arith)
            requires b > 0 && qx >= qy + 1;
        if x >= 0 && y >= 0 {
            assert(false);
        } else if x < 0 && y < 0 {
            assert(b * (qx - 1) >= b * qy) by (nonlinear_arith)
                requires b > 0 && qx >= qy + 1;
            assert(false);
        } else {
            assert(qx <= 0 || x >= 0);
            assert(false);
        }
    }
}

/// If every geometry in the sequence misses, the fold reports a miss.
pub proof fn lemma_closest_none(objs: Seq<Geometry>, r: Ray, t0: int, t1: int)
    requires
        forall|k: int| 0 <= k < objs.len() ==> (#[trigger] objs[k].hit_t(r, t0, t1)) is None,
    ensures
        closest_hit_t(objs, r, t0, t1) is None,
    decreases objs.len(),
{
    if objs.len() > 0 {
        assert(objs[0].hit_t(r, t0, t1) is None);
        assert forall|k: int| 0 <= k < objs.skip(1).len() implies (#[trigger] objs.skip(1)[k].hit_t(
            r,
            t0,
            t1,
        )) is None by {
            assert(objs.skip(1)[k] == objs[k + 1]);
        }
        lemma_closest_none(objs.skip(1), r, t0, t1);
    }
}

/// Splitting the fold at a sequence boundary: the left part is folded first,
/// and the right part only sees the interval the left winner left behind.
pub proof fn lemma_closest_append(s1: Seq<Geometry>, s2: Seq<Geometry>, r: Ray, t0: int, t1: int)
    ensures
        closest_hit_t(s1 + s2, r, t0, t1) == match closest_hit_t(s1, r, t0, t1) {
            Option::None => bump(closest_hit_t(s2, r, t0, t1), s1.len() as int),
            Option::Some((i, t)) => match closest_hit_t(s2, r, t0, t) {
                Option::None => Option::Some((i, t)),
                Option::Some((j, u)) => Option::Some((s1.len() + j, u)),
            },
        },
    decreases s1.len(),
{
    if s1.len() == 0 {
        assert(s1 + s2 =~= s2);
        match closest_hit_t(s2, r, t0, t1) {
            Option::None => {},
            Option::Some((j, u)) => {},
        }
    } else {
        let rest = s1.skip(1);
        assert((s1 + s2).skip(1) =~= rest + s2);
        assert((s1 + s2)[0] == s1[0]);
        assert((s1 + s2).len() > 0);
        match s1[0].hit_t(r, t0, t1) {
            Option::None => {
                lemma_closest_append(rest, s2, r, t0, t1);
            },
            Option::Some(t) => {
                lemma_closest_append(rest, s2, r, t0, t);
            },
        }
    }
}

/// An unordered flat collection of geometries.
#[derive(Debug)]
pub struct GeometryList {
    pub items: Vec<Geometry>,
}

impl GeometryList {
    pub open spec fn wf(self) -> bool {
        forall|k: int| 0 <= k < self.items@.len() ==> (#[trigger] self.items@[k]).wf()
    }

    /// An empty collection.
    pub fn new() -> (l: Self)
        ensures
            l.items@.len() == 0,
            l.wf(),
    {
        GeometryList { items: Vec::new() }
    }

    /// Appends one geometry.
    pub fn add(&mut self, g: Geometry)
        requires
            g.wf(),
            old(self).wf(),
        ensures
            final(self).items@ == old(self).items@.push(g),
            final(self).wf(),
    {
        self.items.push(g);
    }

    /// The closest hit over every item, by direct linear scan: each item is
    /// tested against the interval shrunk to the best parameter found so far.
    pub fn hit(&self, ray: &Ray, t0: i64, t1: i64) -> (res: Option<HitRecord>)
        requires
            self.wf(),
            ray.wf(),
            -T_MAX <= t0 <= T_MAX,
            -T_MAX <= t1 <= T_MAX,
        ensures
            match closest_hit_t(self.items@, *ray, t0 as int, t1 as int) {
                Option::None => res is None,
                Option::Some((i, u)) => res == Some(record_spec(*ray, self.items@[i], u)),
            },
    {
        let mut best: Option<HitRecord> = None;
        let ghost mut best_idx: int = 0;
        let mut k: usize = 0;
        while k < self.items.len()
            invariant
                self.wf(),
                ray.wf(),
                -T_MAX <= t0 <= T_MAX,
                -T_MAX <= t1 <= T_MAX,
                k <= self.items.len(),
                match closest_hit_t(self.items@.take(k as int), *ray, t0 as int, t1 as int) {
                    Option::None => best is None,
                    Option::Some((i, u)) => i == best_idx && best == Some(
                        record_spec(*ray, self.items@[i], u),
                    ) && 0 <= i < k && t0 <= u < t1 && u == record_spec(*ray, self.items@[i], u).unit,
                },
            decreases self.items.len() - k,
        {
            let limit: i64 = match &best {
                Option::Some(h) => h.unit,
                Option::None => t1,
            };
            let cur = self.items[k].hit(ray, t0, limit);
            proof {
                let pre = self.items@.take(k as int);
                assert(self.items@.take(k as int + 1) =~= pre + seq![self.items@[k as int]]);
                lemma_closest_append(
                    pre,
                    seq![self.items@[k as int]],
                    *ray,
                    t0 as int,
                    t1 as int,
                );
                lemma_closest_singleton(self.items@[k as int], *ray, t0 as int, limit as int);
            }
            if cur.is_some() {
                best = cur;
                proof {
                    best_idx = k as int;
                }
            }
            k = k + 1;
        }
        proof {
            assert(self.items@.take(self.items@.len() as int) =~= self.items@);
        }
        best
    }

    /// Builds the collection into a bounding-volume hierarchy over a time
    /// interval.
    pub fn build(self, time_from: i64, time_to: i64) -> (w: crate::bvh::BoundingVolumeHierachies)
        requires
            self.wf(),
        ensures
            crate::bvh::tree_wf(w.root),
            crate::bvh::items(w.root).to_multiset() == self.items@.to_multiset(),
            self.items@.len() > 0 ==> crate::bvh::box_of(w.root) == crate::bvh::boxes_union(
                crate::bvh::items(w.root),
            ),
    {
        crate::bvh::BoundingVolumeHierachies::new(self.items, time_from, time_to)
    }
}

/// The fold over a single geometry is that geometry's own test.
pub proof fn lemma_closest_singleton(g: Geometry, r: Ray, t0: int, t1: int)
    ensures
        closest_hit_t(seq![g], r, t0, t1) == match g.hit_t(r, t0, t1) {
            Option::None => Option::<(int, int)>::None,
            Option::Some(t) => Option::Some((0int, t)),
        },
{
    let s = seq![g];
    assert(s.skip(1).len() == 0);
    match g.hit_t(r, t0, t1) {
        Option::None => {
            reveal_with_fuel(closest_hit_t, 2);
            assert(closest_hit_t(s.skip(1), r, t0, t1) is None);
        },
        Option::Some(t) => {
            reveal_with_fuel(closest_hit_t, 2);
            assert(closest_hit_t(s.skip(1), r, t0, t) is None);
        },
    }
}

} // verus!
