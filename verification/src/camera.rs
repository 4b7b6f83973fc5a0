//! The camera: view parameters to primary rays, via an orthonormal basis.

use vstd::prelude::*;
use crate::fixed::{MAX_COORD, SCALE, fmul_spec, fmul, lemma_mul_bounds, lemma_tdiv_bound};
use crate::geometry::GeometryList;
use crate::ray::Ray;
use crate::render::TakePhotoSettings;
use crate::vec3::{Point3, Vec3};
use crate::world::World;

verus! {

/// The world-up direction the basis is derived against.
pub open spec fn up_spec() -> Vec3 {
    Vec3 { x: 0, y: SCALE, z: 0 }
}

/// The unit forward direction, from the eye toward the target.
pub open spec fn cam_w(look_from: Vec3, look_at: Vec3) -> Vec3 {
    look_at.sub_spec(look_from).unit_spec()
}

/// The unit rightward basis vector.
pub open spec fn cam_hu(look_from: Vec3, look_at: Vec3) -> Vec3 {
    cam_w(look_from, look_at).cross_spec(up_spec()).unit_spec()
}

/// The unit upward basis vector.
pub open spec fn cam_vu(look_from: Vec3, look_at: Vec3) -> Vec3 {
    cam_hu(look_from, look_at).cross_spec(cam_w(look_from, look_at)).unit_spec()
}

/// The full horizontal viewport vector: right basis scaled by focus and width.
pub open spec fn cam_hf(look_from: Vec3, look_at: Vec3, aspect_ratio: int, focus: int) -> Vec3 {
    cam_hu(look_from, look_at).mul_spec(fmul_spec(focus, fmul_spec(2 * (SCALE as int), aspect_ratio)))
}

/// The full vertical viewport vector: up basis scaled by focus and height.
pub open spec fn cam_vf(look_from: Vec3, look_at: Vec3, focus: int) -> Vec3 {
    cam_vu(look_from, look_at).mul_spec(fmul_spec(focus, 2 * (SCALE as int)))
}

/// The viewport's lower-left corner.
pub open spec fn cam_lb(look_from: Vec3, look_at: Vec3, aspect_ratio: int, focus: int) -> Vec3 {
    look_from.sub_spec(cam_hf(look_from, look_at, aspect_ratio, focus).div_spec(2 * (SCALE as int)))
        .sub_spec(cam_vf(look_from, look_at, focus).div_spec(2 * (SCALE as int))).add_spec(
        cam_w(look_from, look_at),
    )
}

/// The view parameters a camera can be built from without degenerating:
/// distinct eye and target, a tilt away from straight up or down, and
/// bounded aspect ratio and focus distance.
pub open spec fn view_ok(look_from: Vec3, look_at: Vec3, aspect_ratio: int, focus: int) -> bool {
    &&& look_from.wf()
    &&& look_at.wf()
    &&& look_at.sub_spec(look_from).ls2() > 0
    &&& cam_w(look_from, look_at).cross_spec(up_spec()).ls2() > 0
    &&& cam_hu(look_from, look_at).cross_spec(cam_w(look_from, look_at)).ls2() > 0
    &&& 0 < aspect_ratio <= 4 * (SCALE as int)
    &&& 0 < focus <= 50 * (SCALE as int)
}

/// The camera: precomputed origin, viewport corner, and basis vectors.
#[derive(Clone, Copy, Debug, PartialEq, Eq, Structural)]
pub struct Camera {
    pub origin: Point3,
    pub left_bottom: Point3,
    pub horizontal_full: Vec3,
    pub vertical_full: Vec3,
    pub horizontal_unit: Vec3,
    pub vertical_unit: Vec3,
    pub aspect_ratio: i64,
    pub shutter_speed: i64,
}

impl Camera {
    /// The geometric facts `ray` relies on: the origin is a scene point and
    /// the viewport stays within one direction's reach of it.
    pub open spec fn wf(self) -> bool {
        &&& self.origin.wf()
        &&& self.left_bottom.bounded(2 * (MAX_COORD as int))
        &&& self.horizontal_full.bounded(400_000_000)
        &&& self.vertical_full.bounded(100_000_000)
        &&& self.left_bottom.sub_spec(self.origin).bounded(260_000_000)
        &&& 0 < self.aspect_ratio <= 4 * SCALE
        &&& 0 <= self.shutter_speed
    }

    /// Derives the camera from its view parameters.
    pub fn new(look_from: &Point3, look_at: &Point3, aspect_ratio: i64, focus_distance: i64) -> (c:
        Camera)
        requires
            view_ok(*look_from, *look_at, aspect_ratio as int, focus_distance as int),
        ensures
            c.origin == *look_from,
            c.horizontal_unit == cam_hu(*look_from, *look_at),
            c.vertical_unit == cam_vu(*look_from, *look_at),
            c.horizontal_full == cam_hf(*look_from, *look_at, aspect_ratio as int, focus_distance as int),
            c.vertical_full == cam_vf(*look_from, *look_at, focus_distance as int),
            c.left_bottom == cam_lb(*look_from, *look_at, aspect_ratio as int, focus_distance as int),
            c.aspect_ratio == aspect_ratio,
            c.shutter_speed == 0,
            c.wf(),
    {
        let vh: i64 = 2 * SCALE;
        proof {
            lemma_mul_bounds(vh as int, aspect_ratio as int, 2 * (SCALE as int), 4 * (SCALE as int));
            lemma_tdiv_bound((vh as int) * (aspect_ratio as int), SCALE as int, 8 * (SCALE as int));
        }
        let vw: i64 = fmul(vh, aspect_ratio);
        let w = look_at.sub(look_from).unit();
        let up = Vec3::new(0, SCALE, 0);
        let horizontal_unit = w.cross(&up).unit();
        let vertical_unit = horizontal_unit.cross(&w).unit();
        proof {
            lemma_mul_bounds(focus_distance as int, vw as int, 50 * (SCALE as int), 8 * (SCALE as int));
            lemma_tdiv_bound((focus_distance as int) * (vw as int), SCALE as int, 400_000_000);
            lemma_mul_bounds(focus_distance as int, vh as int, 50 * (SCALE as int), 2 * (SCALE as int));
            lemma_tdiv_bound((focus_distance as int) * (vh as int), SCALE as int, 100_000_000);
        }
        let fh: i64 = fmul(focus_distance, vw);
        let fv: i64 = fmul(focus_distance, vh);
        let horizontal_full = horizontal_unit.mul(fh);
        let vertical_full = vertical_unit.mul(fv);
        proof {
            lemma_unit_scale_bound(horizontal_unit, fh as int, 400_000_000);
            lemma_unit_scale_bound(vertical_unit, fv as int, 100_000_000);
            lemma_half_bound(horizontal_full, 400_000_000);
            lemma_half_bound(vertical_full, 100_000_000);
        }
        let half_h = horizontal_full.div(2 * SCALE);
        let half_v = vertical_full.div(2 * SCALE);
        let left_bottom = look_from.sub(&half_h).sub(&half_v).add(&w);
        Camera {
            origin: *look_from,
            left_bottom,
            horizontal_full,
            vertical_full,
            horizontal_unit,
            vertical_unit,
            aspect_ratio,
            shutter_speed: 0,
        }
    }

    /// The primary ray through normalized viewport coordinates `(u, v)`:
    /// it starts at the origin and aims at the corresponding viewport point.
    pub fn ray(&self, u: i64, v: i64) -> (r: Ray)
        requires
            self.wf(),
            0 <= u <= SCALE,
            0 <= v <= SCALE,
        ensures
            r == ray_spec(*self, u as int, v as int),
            r.wf(),
    {
        proof {
            lemma_unit_scale_bound2(self.horizontal_full, u as int, 400_000_000);
            lemma_unit_scale_bound2(self.vertical_full, v as int, 100_000_000);
        }
        let du = self.horizontal_full.mul(u);
        let dv = self.vertical_full.mul(v);
        let target = self.left_bottom.add(&du).add(&dv);
        let direction = target.sub(&self.origin);
        Ray::new(self.origin, direction)
    }

    /// Stages a photo of the given scene with this camera.
    pub fn take_photo(&self, world: GeometryList) -> (t: TakePhotoSettings)
        requires
            world.wf(),
            self.wf(),
        ensures
            t.camera == *self,
            crate::bvh::tree_wf(t.world.bvh.root),
            t.world.bg.wf(),
            t.max_reflection == 8,
            t.picture_height == 108,
            t.samples == 50,
            !t.gamma,
    {
        let shutter = self.shutter_speed;
        let bvh = world.build(0, shutter);
        let w = World::new(bvh);
        TakePhotoSettings::new(*self, w)
    }
}

/// The ray a camera casts for viewport coordinates `(u, v)`.
pub open spec fn ray_spec(c: Camera, u: int, v: int) -> Ray {
    Ray {
        origin: c.origin,
        direction: c.left_bottom.add_spec(c.horizontal_full.mul_spec(u)).add_spec(
            c.vertical_full.mul_spec(v),
        ).sub_spec(c.origin),
    }
}

/// Scaling by a fixed factor keeps each component within the factor's size.
proof fn lemma_unit_scale_bound(unit: Vec3, s: int, m: int)
    requires
        unit.bounded(SCALE as int),
        0 <= m,
        -m <= s <= m,
    ensures
        unit.mul_spec(s).bounded(m),
{
    lemma_mul_bounds(unit.x as int, s, SCALE as int, m);
    lemma_mul_bounds(unit.y as int, s, SCALE as int, m);
    lemma_mul_bounds(unit.z as int, s, SCALE as int, m);
    lemma_tdiv_bound((unit.x as int) * s, SCALE as int, m);
    lemma_tdiv_bound((unit.y as int) * s, SCALE as int, m);
    lemma_tdiv_bound((unit.z as int) * s, SCALE as int, m);
}

/// Scaling a bounded vector by a ratio in `[0, SCALE]` keeps its bound.
proof fn lemma_unit_scale_bound2(v: Vec3, s: int, m: int)
    requires
        v.bounded(m),
        0 <= m,
        0 <= s <= SCALE as int,
    ensures
        v.mul_spec(s).bounded(m),
{
    lemma_mul_bounds(v.x as int, s, m, SCALE as int);
    lemma_mul_bounds(v.y as int, s, m, SCALE as int);
    lemma_mul_bounds(v.z as int, s, m, SCALE as int);
    lemma_tdiv_bound((v.x as int) * s, SCALE as int, m);
    lemma_tdiv_bound((v.y as int) * s, SCALE as int, m);
    lemma_tdiv_bound((v.z as int) * s, SCALE as int, m);
}

/// Halving keeps a bound: dividing by two scale units divides the value by two.
proof fn lemma_half_bound(v: Vec3, m: int)
    requires
        v.bounded(m),
        0 <= m,
    ensures
        v.div_spec(2 * (SCALE as int)).bounded(m),
{
    lemma_mul_bounds(v.x as int, SCALE as int, m, SCALE as int);
    lemma_mul_bounds(v.y as int, SCALE as int, m, SCALE as int);
    lemma_mul_bounds(v.z as int, SCALE as int, m, SCALE as int);
    assert(m * (SCALE as int) <= m * (2 * (SCALE as int))) by (nonlinear_arith)
        requires m >= 0 && (SCALE as int) > 0;
    lemma_tdiv_bound((v.x as int) * (SCALE as int), 2 * (SCALE as int), m);
    lemma_tdiv_bound((v.y as int) * (SCALE as int), 2 * (SCALE as int), m);
    lemma_tdiv_bound((v.z as int) * (SCALE as int), 2 * (SCALE as int), m);
}

/// Chainable view parameters for building a camera.
#[derive(Clone, Copy, Debug, PartialEq, Eq, Structural)]
pub struct CameraBuilder {
    pub look_from: Point3,
    pub look_at: Point3,
    pub aspect_ratio: i64,
    pub focus_distance: i64,
}

impl Default for CameraBuilder {
    /// Eye at the origin looking down the negative `z` axis, a 16:9 viewport,
    /// and a focus one unit out.
    fn default() -> (b: Self)
        ensures
            b == (CameraBuilder {
                look_from: Vec3 { x: 0, y: 0, z: 0 },
                look_at: Vec3 { x: 0, y: 0, z: -1_000_000i64 },
                aspect_ratio: 1_777_777,
                focus_distance: SCALE,
            }),
    {
        CameraBuilder {
            look_from: Vec3 { x: 0, y: 0, z: 0 },
            look_at: Vec3 { x: 0, y: 0, z: -SCALE },
            aspect_ratio: 1_777_777,
            focus_distance: SCALE,
        }
    }
}

impl CameraBuilder {
    pub fn look_from(self, look_from: Point3) -> (b: Self)
        ensures
            b == (CameraBuilder { look_from, ..self }),
    {
        CameraBuilder { look_from, ..self }
    }

    pub fn look_at(self, look_at: Point3) -> (b: Self)
        ensures
            b == (CameraBuilder { look_at, ..self }),
    {
        CameraBuilder { look_at, ..self }
    }

    pub fn aspect_ratio(self, aspect_ratio: i64) -> (b: Self)
        ensures
            b == (CameraBuilder { aspect_ratio, ..self }),
    {
        CameraBuilder { aspect_ratio, ..self }
    }

    pub fn focus_distance(self, focus_distance: i64) -> (b: Self)
        ensures
            b == (CameraBuilder { focus_distance, ..self }),
    {
        CameraBuilder { focus_distance, ..self }
    }

    /// Whether the staged parameters describe a buildable camera.
    pub fn can_build(&self) -> (ok: bool)
        ensures
            ok == view_ok(
                self.look_from,
                self.look_at,
                self.aspect_ratio as int,
                self.focus_distance as int,
            ),
    {
        if !(-MAX_COORD <= self.look_from.x && self.look_from.x <= MAX_COORD && -MAX_COORD
            <= self.look_from.y && self.look_from.y <= MAX_COORD && -MAX_COORD <= self.look_from.z
            && self.look_from.z <= MAX_COORD) {
            return false;
        }
        if !(-MAX_COORD <= self.look_at.x && self.look_at.x <= MAX_COORD && -MAX_COORD
            <= self.look_at.y && self.look_at.y <= MAX_COORD && -MAX_COORD <= self.look_at.z
            && self.look_at.z <= MAX_COORD) {
            return false;
        }
        if !(0 < self.aspect_ratio && self.aspect_ratio <= 4 * SCALE) {
            return false;
        }
        if !(0 < self.focus_distance && self.focus_distance <= 50 * SCALE) {
            return false;
        }
        let d = self.look_at.sub(&self.look_from);
        let dl = d.ls2_wide();
        if dl <= 0 {
            return false;
        }
        let w = d.unit();
        let up = Vec3::new(0, SCALE, 0);
        let hu_raw = w.cross(&up);
        let hl = hu_raw.ls2_wide();
        if hl <= 0 {
            return false;
        }
        let hu = hu_raw.unit();
        let vu_raw = hu.cross(&w);
        let vl = vu_raw.ls2_wide();
        vl > 0
    }

    /// Builds the camera; the parameters must describe one.
    pub fn build(self) -> (c: Camera)
        requires
            view_ok(self.look_from, self.look_at, self.aspect_ratio as int, self.focus_distance as int),
        ensures
            c.origin == self.look_from,
            c.horizontal_unit == cam_hu(self.look_from, self.look_at),
            c.vertical_unit == cam_vu(self.look_from, self.look_at),
            c.horizontal_full == cam_hf(
                self.look_from,
                self.look_at,
                self.aspect_ratio as int,
                self.focus_distance as int,
            ),
            c.vertical_full == cam_vf(self.look_from, self.look_at, self.focus_distance as int),
            c.left_bottom == cam_lb(
                self.look_from,
                self.look_at,
                self.aspect_ratio as int,
                self.focus_distance as int,
            ),
            c.aspect_ratio == self.aspect_ratio,
            c.wf(),
    {
        Camera::new(&self.look_from, &self.look_at, self.aspect_ratio, self.focus_distance)
    }
}

} // verus!
