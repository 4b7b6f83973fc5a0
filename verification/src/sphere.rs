//! Spheres: the primitive geometry, with an exact quadratic intersection test.

use vstd::prelude::*;
use crate::aabb::{ray_in_box_at, Aabb};
use crate::fixed::{MAX_COORD, SCALE, T_MAX, tdiv, sqrt_floor, div_t, div_t_wide, isqrt,
    lemma_mul_bounds, lemma_sqrt_floor, lemma_tdiv_shape, lemma_tdiv_bound};
use crate::geometry::Geometry;
use crate::hit::{record_spec, HitRecord};
use crate::material::Material;
use crate::ray::Ray;
use crate::vec3::{Point3, Vec3};

verus! {

/// A sphere with a center, a positive radius, and a surface material.
#[derive(Clone, Copy, Debug, PartialEq, Eq, Structural)]
pub struct Sphere {
    pub center: Point3,
    pub radius: i64,
    pub material: Material,
}

impl Sphere {
    /// Center in range, radius positive and in range, material displayable.
    pub open spec fn wf(self) -> bool {
        self.center.wf() && 0 < self.radius <= MAX_COORD && self.material.wf()
    }

    pub fn new(center: Point3, radius: i64, material: Material) -> (s: Self)
        requires
            center.wf(),
            0 < radius <= MAX_COORD,
            material.wf(),
        ensures
            s == (Sphere { center, radius, material }),
    {
        Sphere { center, radius, material }
    }

    /// The box from `center - radius` to `center + radius`.
    pub open spec fn bbox_spec(self) -> Aabb {
        Aabb {
            min: Vec3 {
                x: (self.center.x - self.radius) as i64,
                y: (self.center.y - self.radius) as i64,
                z: (self.center.z - self.radius) as i64,
            },
            max: Vec3 {
                x: (self.center.x + self.radius) as i64,
                y: (self.center.y + self.radius) as i64,
                z: (self.center.z + self.radius) as i64,
            },
        }
    }

    /// The quadratic coefficient `a`: the squared length of the direction.
    pub open spec fn a_spec(r: Ray) -> int {
        r.direction.ls2()
    }

    /// The half cross coefficient `oc . direction`, exactly at squared scale.
    pub open spec fn half_b_spec(self, r: Ray) -> int {
        (r.origin.x - self.center.x) * r.direction.x + (r.origin.y - self.center.y)
            * r.direction.y + (r.origin.z - self.center.z) * r.direction.z
    }

    /// The constant coefficient `|oc|^2 - radius^2`, exactly at squared scale.
    pub open spec fn c_spec(self, r: Ray) -> int {
        (r.origin.x - self.center.x) * (r.origin.x - self.center.x) + (r.origin.y - self.center.y)
            * (r.origin.y - self.center.y) + (r.origin.z - self.center.z) * (r.origin.z
            - self.center.z) - self.radius * self.radius
    }

    /// The discriminant of the ray-sphere quadratic.
    pub open spec fn disc_spec(self, r: Ray) -> int {
        self.half_b_spec(r) * self.half_b_spec(r) - Self::a_spec(r) * self.c_spec(r)
    }

    /// The nearer root, as a fixed-point parameter (truncated).
    pub open spec fn root1_spec(self, r: Ray) -> int {
        tdiv((-self.half_b_spec(r) - sqrt_floor(self.disc_spec(r))) * (SCALE as int), Self::a_spec(r))
    }

    /// The farther root, as a fixed-point parameter (truncated).
    pub open spec fn root2_spec(self, r: Ray) -> int {
        tdiv((-self.half_b_spec(r) + sqrt_floor(self.disc_spec(r))) * (SCALE as int), Self::a_spec(r))
    }

    /// A root is accepted when it lies in the queried half-open interval and
    /// its point, held exactly at squared scale, stays inside the sphere's box.
    pub open spec fn root_ok(self, r: Ray, t: int, t0: int, t1: int) -> bool {
        t0 <= t < t1 && ray_in_box_at(self.bbox_spec(), r, t)
    }

    /// The parameter the intersection test reports.  A degenerate direction
    /// or a negative discriminant is a miss.  The nearer root is taken when
    /// it lies in the interval, but only if its truncated point still lies
    /// inside the sphere's own box; otherwise the farther root gets the same
    /// treatment.  The in-box guard goes beyond plain root selection: an
    /// in-interval root whose truncated point has drifted outside the box —
    /// possible only by quantization, at a box-tangent grazing — is reported
    /// as a miss.  The guard is what lets the hierarchy prune on boxes
    /// without ever losing a reported hit.
    pub open spec fn hit_t(self, r: Ray, t0: int, t1: int) -> Option<int> {
        if Self::a_spec(r) <= 0 {
            None
        } else if self.disc_spec(r) < 0 {
            None
        } else if t0 <= self.root1_spec(r) < t1 {
            if ray_in_box_at(self.bbox_spec(), r, self.root1_spec(r)) {
                Some(self.root1_spec(r))
            } else {
                None
            }
        } else if self.root_ok(r, self.root2_spec(r), t0, t1) {
            Some(self.root2_spec(r))
        } else {
            None
        }
    }

    /// The outward unit normal at a surface point (zero at the center).
    pub open spec fn normal_spec(self, p: Vec3) -> Vec3 {
        let d = Vec3 {
            x: (p.x - self.center.x) as i64,
            y: (p.y - self.center.y) as i64,
            z: (p.z - self.center.z) as i64,
        };
        if d.ls2() == 0 {
            Vec3 { x: 0, y: 0, z: 0 }
        } else {
            d.unit_spec()
        }
    }

    /// The surface parametrization at a point, as a rational chart: the
    /// azimuth around the `y` axis is measured piecewise by coordinate
    /// shares (monotone around the equator, one full turn spanning
    /// `[0, SCALE]`), and the latitude is linear in `y`.  This stands in for
    /// the trigonometric longitude/latitude chart, which has no exact
    /// fixed-point form; both agree at the poles, the equator, and the four
    /// quadrant boundaries, and order points identically in between.
    pub open spec fn uv_spec(self, p: Vec3) -> (int, int) {
        let d = Vec3 {
            x: (p.x - self.center.x) as i64,
            y: (p.y - self.center.y) as i64,
            z: (p.z - self.center.z) as i64,
        };
        if d.ls2() == 0 {
            (0, 0)
        } else {
            let q = d.unit_spec();
            (azimuth_spec(q.x as int, -(q.z as int)), tdiv(q.y + (SCALE as int), 2))
        }
    }

    /// The outward unit normal at `p`.
    pub fn normal(&self, p: &Point3) -> (n: Vec3)
        requires
            self.center.wf(),
            p.bounded(2_000_000_000_000_000),
        ensures
            n == self.normal_spec(*p),
            n.bounded(SCALE as int),
    {
        let d = p.sub(&self.center);
        let w = d.ls2_wide();
        if w == 0 {
            Vec3::new(0, 0, 0)
        } else {
            d.unit()
        }
    }

    /// The material of the sphere's surface.
    pub fn material(&self) -> (m: Material)
        ensures
            m == self.material,
    {
        self.material
    }

    /// The surface parametrization at `p`.
    pub fn uv(&self, p: &Point3) -> (r: (i64, i64))
        requires
            self.center.wf(),
            p.bounded(2_000_000_000_000_000),
        ensures
            (r.0 as int, r.1 as int) == self.uv_spec(*p),
            0 <= r.0 <= SCALE,
            0 <= r.1 <= SCALE,
    {
        let d = p.sub(&self.center);
        let w = d.ls2_wide();
        if w == 0 {
            (0, 0)
        } else {
            let q = d.unit();
            let u = azimuth(q.x, -q.z);
            let v = div_t(q.y + SCALE, 2);
            proof {
                lemma_tdiv_shape(q.y + (SCALE as int), 2);
            }
            (u, v)
        }
    }

    /// The bounding box: `center - radius` to `center + radius` on each axis.
    /// Every sphere reports one.
    pub fn bbox(&self, time_from: i64, time_to: i64) -> (b: Option<Aabb>)
        requires
            self.wf(),
        ensures
            b == Some(self.bbox_spec()),
            self.bbox_spec().wf(),
    {
        Some(
            Aabb::new(
                Vec3::new(
                    self.center.x - self.radius,
                    self.center.y - self.radius,
                    self.center.z - self.radius,
                ),
                Vec3::new(
                    self.center.x + self.radius,
                    self.center.y + self.radius,
                    self.center.z + self.radius,
                ),
            ),
        )
    }

    /// Whether the ray's exact position at `t` is inside the sphere's box.
    fn in_bbox(&self, ray: &Ray, t: i64) -> (res: bool)
        requires
            self.wf(),
            ray.wf(),
            -T_MAX <= t <= T_MAX,
        ensures
            res == ray_in_box_at(self.bbox_spec(), *ray, t as int),
    {
        proof {
            lemma_mul_bounds(t as int, ray.direction.x as int, T_MAX as int, MAX_COORD as int);
            lemma_mul_bounds(t as int, ray.direction.y as int, T_MAX as int, MAX_COORD as int);
            lemma_mul_bounds(t as int, ray.direction.z as int, T_MAX as int, MAX_COORD as int);
            lemma_mul_bounds(ray.origin.x as int, SCALE as int, 2 * (MAX_COORD as int), SCALE as int);
            lemma_mul_bounds(ray.origin.y as int, SCALE as int, 2 * (MAX_COORD as int), SCALE as int);
            lemma_mul_bounds(ray.origin.z as int, SCALE as int, 2 * (MAX_COORD as int), SCALE as int);
            lemma_mul_bounds((self.center.x - self.radius) as int, SCALE as int, 2 * (MAX_COORD as int), SCALE as int);
            lemma_mul_bounds((self.center.y - self.radius) as int, SCALE as int, 2 * (MAX_COORD as int), SCALE as int);
            lemma_mul_bounds((self.center.z - self.radius) as int, SCALE as int, 2 * (MAX_COORD as int), SCALE as int);
            lemma_mul_bounds((self.center.x + self.radius) as int, SCALE as int, 2 * (MAX_COORD as int), SCALE as int);
            lemma_mul_bounds((self.center.y + self.radius) as int, SCALE as int, 2 * (MAX_COORD as int), SCALE as int);
            lemma_mul_bounds((self.center.z + self.radius) as int, SCALE as int, 2 * (MAX_COORD as int), SCALE as int);
        }
        let px = (ray.origin.x as i128) * (SCALE as i128) + (t as i128) * (ray.direction.x as i128);
        let py = (ray.origin.y as i128) * (SCALE as i128) + (t as i128) * (ray.direction.y as i128);
        let pz = (ray.origin.z as i128) * (SCALE as i128) + (t as i128) * (ray.direction.z as i128);
        let sw = SCALE as i128;
        ((self.center.x - self.radius) as i128) * sw <= px && px <= ((self.center.x
            + self.radius) as i128) * sw && ((self.center.y - self.radius) as i128) * sw <= py
            && py <= ((self.center.y + self.radius) as i128) * sw && ((self.center.z
            - self.radius) as i128) * sw <= pz && pz <= ((self.center.z + self.radius) as i128)
            * sw
    }

    /// Intersects the ray with the sphere over the half-open interval
    /// `[t0, t1)`.  The result is pinned to [`Sphere::hit_t`]; any record
    /// returned carries an against-the-ray normal and an in-box point.
    pub fn hit(&self, ray: &Ray, t0: i64, t1: i64) -> (res: Option<HitRecord>)
        requires
            self.wf(),
            ray.wf(),
            -T_MAX <= t0 <= T_MAX,
            -T_MAX <= t1 <= T_MAX,
        ensures
            match self.hit_t(*ray, t0 as int, t1 as int) {
                Option::None => res is None,
                Option::Some(t) => res == Some(record_spec(*ray, Geometry::Sphere(*self), t)),
            },
            match res {
                Option::Some(h) => ray.direction.dot2(h.normal) <= 0 && h.normal.bounded(
                    SCALE as int,
                ) && h.point.bounded(2 * (MAX_COORD as int)) && t0 <= h.unit < t1
                    && h.material == self.material,
                Option::None => true,
            },
    {
        let oc = ray.origin.sub(&self.center);
        let a = ray.direction.ls2_wide();
        let half_b = oc.dot2_wide(&ray.direction);
        let oc2 = oc.ls2_wide();
        proof {
            lemma_mul_bounds(self.radius as int, self.radius as int, MAX_COORD as int, MAX_COORD as int);
            lemma_mul_bounds(oc.x as int, ray.direction.x as int, 3_000_000_000, MAX_COORD as int);
            lemma_mul_bounds(oc.y as int, ray.direction.y as int, 3_000_000_000, MAX_COORD as int);
            lemma_mul_bounds(oc.z as int, ray.direction.z as int, 3_000_000_000, MAX_COORD as int);
            lemma_mul_bounds(oc.x as int, oc.x as int, 3_000_000_000, 3_000_000_000);
            lemma_mul_bounds(oc.y as int, oc.y as int, 3_000_000_000, 3_000_000_000);
            lemma_mul_bounds(oc.z as int, oc.z as int, 3_000_000_000, 3_000_000_000);
            lemma_mul_bounds(ray.direction.x as int, ray.direction.x as int, MAX_COORD as int, MAX_COORD as int);
            lemma_mul_bounds(ray.direction.y as int, ray.direction.y as int, MAX_COORD as int, MAX_COORD as int);
            lemma_mul_bounds(ray.direction.z as int, ray.direction.z as int, MAX_COORD as int, MAX_COORD as int);
        }
        let c = oc2 - (self.radius as i128) * (self.radius as i128);
        if a <= 0 {
            return None;
        }
        proof {
            lemma_mul_bounds(
                half_b as int,
                half_b as int,
                9_000_000_000_000_000_000,
                9_000_000_000_000_000_000,
            );
            lemma_mul_bounds(
                a as int,
                c as int,
                3_000_000_000_000_000_000,
                28_000_000_000_000_000_000,
            );
        }
        let disc = half_b * half_b - a * c;
        if disc < 0 {
            return None;
        }
        let sq = isqrt(disc as u128);
        proof {
            lemma_sqrt_floor(disc as int);
            assert(sq as int <= 13_000_000_000_000_000_000) by (nonlinear_arith)
                requires
                    (sq as int) * (sq as int) <= disc as int,
                    disc as int <= 166_000_000_000_000_000_000_000_000_000_000_000_000,
                    sq as int >= 0,
            ;
        }
        let sqw = sq as i128;
        proof {
            lemma_mul_bounds(
                (-(half_b as int)) - (sq as int),
                SCALE as int,
                22_000_000_000_000_000_000,
                SCALE as int,
            );
        }
        let num1 = (-half_b - sqw) * (SCALE as i128);
        proof {
            lemma_tdiv_bound(num1 as int, a as int, 22_000_000_000_000_000_000_000_000);
        }
        let root1 = div_t_wide(num1, a);
        if (t0 as i128) <= root1 && root1 < (t1 as i128) {
            let r1 = root1 as i64;
            if self.in_bbox(ray, r1) {
                proof {
                    lemma_record_point_in_box(*self, *ray, r1 as int);
                }
                return Some(HitRecord::new(ray, &Geometry::Sphere(*self), r1));
            }
            return None;
        }
        proof {
            lemma_mul_bounds(
                (-(half_b as int)) + (sq as int),
                SCALE as int,
                22_000_000_000_000_000_000,
                SCALE as int,
            );
        }
        let num2 = (-half_b + sqw) * (SCALE as i128);
        proof {
            lemma_tdiv_bound(num2 as int, a as int, 22_000_000_000_000_000_000_000_000);
        }
        let root2 = div_t_wide(num2, a);
        if (t0 as i128) <= root2 && root2 < (t1 as i128) {
            let r2 = root2 as i64;
            if self.in_bbox(ray, r2) {
                proof {
                    lemma_record_point_in_box(*self, *ray, r2 as int);
                }
                return Some(HitRecord::new(ray, &Geometry::Sphere(*self), r2));
            }
        }
        None
    }
}

/// A parameter whose scaled position sits inside the sphere's box lands the
/// truncated point inside the box too: each coordinate stays within a corner.
proof fn lemma_point_in_box(o: int, d: int, t: int, mn: int, mx: int)
    requires
        mn * (SCALE as int) <= o * (SCALE as int) + t * d <= mx * (SCALE as int),
    ensures
        mn <= o + tdiv(t * d, SCALE as int) <= mx,
{
    lemma_tdiv_shape(t * d, SCALE as int);
}

/// The hit record's point of an accepted root is bounded by the box corners.
proof fn lemma_record_point_in_box(s: Sphere, r: Ray, t: int)
    requires
        s.wf(),
        r.wf(),
        ray_in_box_at(s.bbox_spec(), r, t),
    ensures
        r.at_spec(t).bounded(2 * (MAX_COORD as int)),
{
    lemma_point_in_box(
        r.origin.x as int,
        r.direction.x as int,
        t,
        s.center.x - s.radius,
        s.center.x + s.radius,
    );
    lemma_point_in_box(
        r.origin.y as int,
        r.direction.y as int,
        t,
        s.center.y - s.radius,
        s.center.y + s.radius,
    );
    lemma_point_in_box(
        r.origin.z as int,
        r.direction.z as int,
        t,
        s.center.z - s.radius,
        s.center.z + s.radius,
    );
}

/// A ray aimed straight through a sphere's center hits its surface exactly:
/// with a direction of exactly unit length and the center exactly `k` quanta
/// ahead along it, the discriminant is a perfect square and the two roots
/// are exactly `k - radius` and `k + radius`.  (A miss is definitional:
/// `hit_t` answers `None` whenever the discriminant is negative.)
pub proof fn lemma_sphere_center_hit(s: Sphere, r: Ray, k: int)
    requires
        s.wf(),
        Sphere::a_spec(r) == (SCALE as int) * (SCALE as int),
        k > 0,
        (s.center.x - r.origin.x) * (SCALE as int) == k * r.direction.x,
        (s.center.y - r.origin.y) * (SCALE as int) == k * r.direction.y,
        (s.center.z - r.origin.z) * (SCALE as int) == k * r.direction.z,
    ensures
        s.disc_spec(r) >= 0,
        s.root1_spec(r) == k - s.radius,
        s.root2_spec(r) == k + s.radius,
{
    let sc = SCALE as int;
    let dx = r.direction.x as int;
    let dy = r.direction.y as int;
    let dz = r.direction.z as int;
    let ox = r.origin.x as int;
    let oy = r.origin.y as int;
    let oz = r.origin.z as int;
    let cx = s.center.x as int;
    let cy = s.center.y as int;
    let cz = s.center.z as int;
    let rad = s.radius as int;
    let hb = s.half_b_spec(r);
    let cc = s.c_spec(r);
    // Axis by axis, colinearity turns the mixed products into squares.
    assert(sc * ((ox - cx) * dx) == -(k * (dx * dx))) by (nonlinear_arith)
        requires (cx - ox) * sc == k * dx;
    assert(sc * ((oy - cy) * dy) == -(k * (dy * dy))) by (nonlinear_arith)
        requires (cy - oy) * sc == k * dy;
    assert(sc * ((oz - cz) * dz) == -(k * (dz * dz))) by (nonlinear_arith)
        requires (cz - oz) * sc == k * dz;
    assert(k * (dx * dx + dy * dy + dz * dz) == k * (dx * dx) + k * (dy * dy) + k * (dz
        * dz)) by (nonlinear_arith);
    assert(sc * hb == -(k * (sc * sc)));
    assert(hb == -(k * sc)) by (nonlinear_arith)
        requires sc * hb == -(k * (sc * sc)) && sc > 0;
    // Axis by axis, squaring the colinearity pins the center distance.
    assert((sc * sc) * ((ox - cx) * (ox - cx)) == (k * k) * (dx * dx)) by (nonlinear_arith)
        requires (cx - ox) * sc == k * dx;
    assert((sc * sc) * ((oy - cy) * (oy - cy)) == (k * k) * (dy * dy)) by (nonlinear_arith)
        requires (cy - oy) * sc == k * dy;
    assert((sc * sc) * ((oz - cz) * (oz - cz)) == (k * k) * (dz * dz)) by (nonlinear_arith)
        requires (cz - oz) * sc == k * dz;
    assert((k * k) * (dx * dx + dy * dy + dz * dz) == (k * k) * (dx * dx) + (k * k) * (dy * dy) + (
    k * k) * (dz * dz)) by (nonlinear_arith);
    assert((sc * sc) * (cc + rad * rad) == (sc * sc) * ((ox - cx) * (ox - cx)) + (sc * sc) * ((oy
        - cy) * (oy - cy)) + (sc * sc) * ((oz - cz) * (oz - cz))) by (nonlinear_arith)
        requires cc + rad * rad == (ox - cx) * (ox - cx) + (oy - cy) * (oy - cy) + (oz - cz) * (oz
            - cz);
    assert((sc * sc) * (cc + rad * rad) == (k * k) * (sc * sc));
    assert(cc == k * k - rad * rad) by (nonlinear_arith)
        requires (sc * sc) * (cc + rad * rad) == (k * k) * (sc * sc) && sc * sc > 0;
    // The discriminant collapses to the square of SCALE times the radius.
    assert(hb * hb == (sc * sc) * (k * k)) by (nonlinear_arith)
        requires hb == -(k * sc);
    assert((sc * sc) * cc == (sc * sc) * (k * k) - (sc * sc) * (rad * rad)) by (nonlinear_arith)
        requires cc == k * k - rad * rad;
    assert(s.disc_spec(r) == (sc * sc) * (rad * rad));
    assert((sc * rad) * (sc * rad) == (sc * sc) * (rad * rad)) by (nonlinear_arith);
    assert(sc * rad >= sc) by (nonlinear_arith)
        requires sc > 0 && rad >= 1;
    assert(s.disc_spec(r) < ((sc * rad) + 1) * ((sc * rad) + 1)) by (nonlinear_arith)
        requires s.disc_spec(r) == (sc * rad) * (sc * rad) && sc * rad >= 0;
    crate::fixed::lemma_sqrt_floor_unique(s.disc_spec(r), sc * rad);
    let sq = crate::fixed::sqrt_floor(s.disc_spec(r));
    assert(sq == sc * rad);
    // Both numerators are exact multiples of the unit-length coefficient.
    assert((-hb - sq) * sc == (k - rad) * (sc * sc)) by (nonlinear_arith)
        requires hb == -(k * sc) && sq == sc * rad;
    assert((-hb + sq) * sc == (k + rad) * (sc * sc)) by (nonlinear_arith)
        requires hb == -(k * sc) && sq == sc * rad;
    crate::fixed::lemma_tdiv_exact(k - rad, sc * sc);
    crate::fixed::lemma_tdiv_exact(k + rad, sc * sc);
}

/// A tangent ray sees a vanishing discriminant, and then the two roots agree:
/// the quadratic has exactly one solution.
pub proof fn lemma_sphere_tangent(s: Sphere, r: Ray)
    requires
        s.disc_spec(r) == 0,
    ensures
        s.root1_spec(r) == s.root2_spec(r),
{
    assert(sqrt_floor(0) == 0);
}

/// The piecewise-rational azimuth of `(aa, bb)` around the origin, scaled to
/// `[0, SCALE]`: each quadrant maps linearly in the smaller coordinate's share.
pub open spec fn azimuth_spec(aa: int, bb: int) -> int {
    if aa >= 0 && bb >= 0 {
        if aa + bb == 0 {
            0
        } else {
            tdiv(tdiv(bb * (SCALE as int), aa + bb), 4)
        }
    } else if aa < 0 && bb >= 0 {
        tdiv((SCALE as int) + tdiv((-aa) * (SCALE as int), bb - aa), 4)
    } else if aa < 0 && bb < 0 {
        tdiv(2 * (SCALE as int) + tdiv((-bb) * (SCALE as int), -aa - bb), 4)
    } else {
        tdiv(3 * (SCALE as int) + tdiv(aa * (SCALE as int), aa - bb), 4)
    }
}

/// The azimuth of a unit-range pair, executable form.
fn azimuth(aa: i64, bb: i64) -> (u: i64)
    requires
        -SCALE <= aa <= SCALE,
        -SCALE <= bb <= SCALE,
    ensures
        u as int == azimuth_spec(aa as int, bb as int),
        0 <= u <= SCALE,
{
    proof {
        lemma_azimuth_bounds(aa as int, bb as int);
    }
    if aa >= 0 && bb >= 0 {
        if aa + bb == 0 {
            0
        } else {
            div_t(div_t(bb * SCALE, aa + bb), 4)
        }
    } else if aa < 0 && bb >= 0 {
        div_t(SCALE + div_t((-aa) * SCALE, bb - aa), 4)
    } else if aa < 0 && bb < 0 {
        div_t(2 * SCALE + div_t((-bb) * SCALE, -aa - bb), 4)
    } else {
        div_t(3 * SCALE + div_t(aa * SCALE, aa - bb), 4)
    }
}

/// Ranges of the azimuth pieces.
proof fn lemma_azimuth_bounds(aa: int, bb: int)
    requires
        -(SCALE as int) <= aa <= SCALE as int,
        -(SCALE as int) <= bb <= SCALE as int,
    ensures
        aa >= 0 && bb >= 0 && aa + bb > 0 ==> 0 <= tdiv(bb * (SCALE as int), aa + bb) <= SCALE as int,
        aa < 0 && bb >= 0 ==> 0 <= tdiv((-aa) * (SCALE as int), bb - aa) <= SCALE as int,
        aa < 0 && bb < 0 ==> 0 <= tdiv((-bb) * (SCALE as int), -aa - bb) <= SCALE as int,
        aa >= 0 && bb < 0 ==> 0 <= tdiv(aa * (SCALE as int), aa - bb) <= SCALE as int,
        0 <= azimuth_spec(aa, bb) <= SCALE as int,
{
    if aa >= 0 && bb >= 0 && aa + bb > 0 {
        assert(0 <= bb * (SCALE as int) <= (aa + bb) * (SCALE as int)) by (nonlinear_arith)
            requires 0 <= bb && 0 <= aa && (SCALE as int) > 0;
        assert((aa + bb) * (SCALE as int) == (SCALE as int) * (aa + bb)) by (nonlinear_arith);
        lemma_tdiv_bound2(bb * (SCALE as int), aa + bb, SCALE as int);
        lemma_tdiv_shape(tdiv(bb * (SCALE as int), aa + bb), 4);
    }
    if aa < 0 && bb >= 0 {
        assert(0 <= (-aa) * (SCALE as int) <= (bb - aa) * (SCALE as int)) by (nonlinear_arith)
            requires aa < 0 && bb >= 0 && (SCALE as int) > 0;
        assert((bb - aa) * (SCALE as int) == (SCALE as int) * (bb - aa)) by (nonlinear_arith);
        lemma_tdiv_bound2((-aa) * (SCALE as int), bb - aa, SCALE as int);
        lemma_tdiv_shape((SCALE as int) + tdiv((-aa) * (SCALE as int), bb - aa), 4);
    }
    if aa < 0 && bb < 0 {
        assert(0 <= (-bb) * (SCALE as int) <= (-aa - bb) * (SCALE as int)) by (nonlinear_arith)
            requires aa < 0 && bb < 0 && (SCALE as int) > 0;
        assert((-aa - bb) * (SCALE as int) == (SCALE as int) * (-aa - bb)) by (nonlinear_arith);
        lemma_tdiv_bound2((-bb) * (SCALE as int), -aa - bb, SCALE as int);
        lemma_tdiv_shape(2 * (SCALE as int) + tdiv((-bb) * (SCALE as int), -aa - bb), 4);
    }
    if aa >= 0 && bb < 0 {
        assert(0 <= aa * (SCALE as int) <= (aa - bb) * (SCALE as int)) by (nonlinear_arith)
            requires aa >= 0 && bb < 0 && (SCALE as int) > 0;
        assert((aa - bb) * (SCALE as int) == (SCALE as int) * (aa - bb)) by (nonlinear_arith);
        lemma_tdiv_bound2(aa * (SCALE as int), aa - bb, SCALE as int);
        lemma_tdiv_shape(3 * (SCALE as int) + tdiv(aa * (SCALE as int), aa - bb), 4);
    }
    if aa >= 0 && bb >= 0 && aa + bb == 0 {
    }
}

/// A nonnegative dividend below `m * b` divides to within `[0, m]`.
proof fn lemma_tdiv_bound2(x: int, b: int, m: int)
    requires
        b > 0,
        m >= 0,
        0 <= x <= b * m,
    ensures
        0 <= tdiv(x, b) <= m,
{
    assert(b * m == m * b) by (nonlinear_arith);
    lemma_tdiv_bound(x, b, m);
}

/// Intersects a ray with a bare sphere: the first root with a positive,
/// in-range parameter, together with the outward unit normal there.
pub open spec fn hit_sphere_t(center: Vec3, radius: i64, ray: Ray) -> Option<int> {
    let s = probe_sphere(center, radius);
    if Sphere::a_spec(ray) <= 0 {
        None
    } else if s.disc_spec(ray) < 0 {
        None
    } else if 0 < s.root1_spec(ray) <= T_MAX {
        Some(s.root1_spec(ray))
    } else if 0 < s.root2_spec(ray) <= T_MAX {
        Some(s.root2_spec(ray))
    } else {
        None
    }
}

/// The sphere a bare center and radius probe describes (material immaterial).
pub open spec fn probe_sphere(center: Vec3, radius: i64) -> Sphere {
    Sphere {
        center,
        radius,
        material: Material::Lambertian(
            crate::material::Lambertian {
                texture: crate::texture::Texture::Solid(
                    crate::color::Color::RgbF(crate::color::RgbFloat { r: 0, g: 0, b: 0 }),
                ),
                math_type: crate::material::LambertianMathType::Approximate,
            },
        ),
    }
}

/// Solves the ray-sphere quadratic directly: the first root along the ray
/// with a positive in-range parameter, and the unit normal at its point.
pub fn hit_sphere(center: &Point3, radius: i64, ray: &Ray) -> (res: Option<(i64, Vec3)>)
    requires
        center.wf(),
        0 < radius <= MAX_COORD,
        ray.wf(),
    ensures
        match hit_sphere_t(*center, radius, *ray) {
            Option::None => res is None,
            Option::Some(t) => match res {
                Option::Some(p) => p.0 == t && p.1 == probe_sphere(*center, radius).normal_spec(
                    ray.at_spec(t),
                ),
                Option::None => false,
            },
        },
{
    let s = Sphere::new(
        *center,
        radius,
        Material::Lambertian(
            crate::material::Lambertian::new(
                crate::texture::Texture::Solid(crate::color::Color::newf(0, 0, 0)),
            ),
        ),
    );
    let oc = ray.origin.sub(center);
    let a = ray.direction.ls2_wide();
    let half_b = oc.dot2_wide(&ray.direction);
    let oc2 = oc.ls2_wide();
    proof {
        lemma_mul_bounds(radius as int, radius as int, MAX_COORD as int, MAX_COORD as int);
        lemma_mul_bounds(oc.x as int, ray.direction.x as int, 3_000_000_000, MAX_COORD as int);
        lemma_mul_bounds(oc.y as int, ray.direction.y as int, 3_000_000_000, MAX_COORD as int);
        lemma_mul_bounds(oc.z as int, ray.direction.z as int, 3_000_000_000, MAX_COORD as int);
        lemma_mul_bounds(oc.x as int, oc.x as int, 3_000_000_000, 3_000_000_000);
        lemma_mul_bounds(oc.y as int, oc.y as int, 3_000_000_000, 3_000_000_000);
        lemma_mul_bounds(oc.z as int, oc.z as int, 3_000_000_000, 3_000_000_000);
        lemma_mul_bounds(ray.direction.x as int, ray.direction.x as int, MAX_COORD as int, MAX_COORD as int);
        lemma_mul_bounds(ray.direction.y as int, ray.direction.y as int, MAX_COORD as int, MAX_COORD as int);
        lemma_mul_bounds(ray.direction.z as int, ray.direction.z as int, MAX_COORD as int, MAX_COORD as int);
    }
    let c = oc2 - (radius as i128) * (radius as i128);
    if a <= 0 {
        return None;
    }
    proof {
        lemma_mul_bounds(
            half_b as int,
            half_b as int,
            9_000_000_000_000_000_000,
            9_000_000_000_000_000_000,
        );
        lemma_mul_bounds(
            a as int,
            c as int,
            3_000_000_000_000_000_000,
            28_000_000_000_000_000_000,
        );
    }
    let disc = half_b * half_b - a * c;
    if disc < 0 {
        return None;
    }
    let sq = isqrt(disc as u128);
    proof {
        lemma_sqrt_floor(disc as int);
        assert(sq as int <= 13_000_000_000_000_000_000) by (nonlinear_arith)
            requires
                (sq as int) * (sq as int) <= disc as int,
                disc as int <= 166_000_000_000_000_000_000_000_000_000_000_000_000,
                sq as int >= 0,
        ;
    }
    let sqw = sq as i128;
    proof {
        lemma_mul_bounds(
            (-(half_b as int)) - (sq as int),
            SCALE as int,
            22_000_000_000_000_000_000,
            SCALE as int,
        );
    }
    let num1 = (-half_b - sqw) * (SCALE as i128);
    proof {
        lemma_tdiv_bound(num1 as int, a as int, 22_000_000_000_000_000_000_000_000);
    }
    let root1 = div_t_wide(num1, a);
    if 0 < root1 && root1 <= (T_MAX as i128) {
        let t = root1 as i64;
        let p = ray.at(t);
        return Some((t, s.normal(&p)));
    }
    proof {
        lemma_mul_bounds(
            (-(half_b as int)) + (sq as int),
            SCALE as int,
            22_000_000_000_000_000_000,
            SCALE as int,
        );
    }
    let num2 = (-half_b + sqw) * (SCALE as i128);
    proof {
        lemma_tdiv_bound(num2 as int, a as int, 22_000_000_000_000_000_000_000_000);
    }
    let root2 = div_t_wide(num2, a);
    if 0 < root2 && root2 <= (T_MAX as i128) {
        let t = root2 as i64;
        let p = ray.at(t);
        return Some((t, s.normal(&p)));
    }
    None
}

} // verus!
