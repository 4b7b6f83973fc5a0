//! The scene: a geometry aggregate plus a background environment.

use vstd::prelude::*;
use crate::aabb::Aabb;
use crate::bvh::{box_of, items, tree_wf, BoundingVolumeHierachies, BvhTree};
use crate::color::{color_bounded, color_valid, gradient_spec, Color};
use crate::fixed::{MAX_COORD, SCALE, T_MAX, tdiv};
use crate::geometry::closest_hit_t;
use crate::hit::{record_spec, HitRecord};
use crate::ray::Ray;
use crate::vec3::Vec3;

verus! {

/// A vertical sky gradient: `bottom` where the ray points down, `top` where
/// it points up, interpolated by the direction's vertical share.
#[derive(Clone, Copy, Debug, PartialEq, Eq, Structural)]
pub struct Background {
    pub bottom: Color,
    pub top: Color,
}

impl Background {
    /// Both endpoint colors are displayable.
    pub open spec fn wf(self) -> bool {
        color_valid(self.bottom) && color_bounded(self.bottom) && color_valid(self.top)
            && color_bounded(self.top)
    }
}

/// The gradient ratio of a ray: half of the unit direction's `y`, shifted up.
pub open spec fn background_ratio_spec(r: Ray) -> int {
    let u = if r.direction.ls2() == 0 {
        Vec3 { x: 0, y: 0, z: 0 }
    } else {
        r.direction.unit_spec()
    };
    tdiv(u.y + (SCALE as int), 2)
}

/// The color a background answers for a ray.
pub open spec fn background_spec(bg: Background, r: Ray) -> Color {
    gradient_spec(bg.bottom, background_ratio_spec(r), bg.top)
}

/// The default sky: white below fading into light blue above.
pub fn default_background(ray: &Ray) -> (c: Color)
    requires
        ray.direction.wf(),
    ensures
        ({
            let bg = Background {
                bottom: Color::RgbF(crate::color::RgbFloat { r: SCALE, g: SCALE, b: SCALE }),
                top: Color::RgbF(crate::color::RgbFloat { r: 500_000, g: 700_000, b: SCALE }),
            };
            c == background_spec(bg, *ray)
        }),
{
    let bg = Background {
        bottom: Color::newf(SCALE, SCALE, SCALE),
        top: Color::newf(500_000, 700_000, SCALE),
    };
    eval_background(&bg, ray)
}

/// Evaluates a background at a ray.
pub fn eval_background(bg: &Background, ray: &Ray) -> (c: Color)
    requires
        bg.wf(),
        ray.direction.wf(),
    ensures
        c == background_spec(*bg, *ray),
        color_valid(c),
        color_bounded(c),
{
    let w = ray.direction.ls2_wide();
    let u = if w == 0 {
        Vec3::new(0, 0, 0)
    } else {
        ray.direction.unit()
    };
    let t = crate::fixed::div_t(u.y + SCALE, 2);
    proof {
        crate::fixed::lemma_tdiv_shape((u.y + SCALE) as int, 2);
    }
    let c = bg.bottom.gradient(t, bg.top);
    proof {
        lemma_gradient_displayable(bg.bottom, t as int, bg.top);
    }
    c
}

/// A gradient of two colors is always displayable: every channel is clamped.
pub proof fn lemma_gradient_displayable(c1: Color, ratial: int, c2: Color)
    ensures
        color_valid(gradient_spec(c1, ratial, c2)),
        color_bounded(gradient_spec(c1, ratial, c2)),
{
}

/// The scene a render traces: geometry in a hierarchy, plus the background.
#[derive(Debug)]
pub struct World {
    pub bvh: BoundingVolumeHierachies,
    pub bg: Background,
}

impl World {
    pub open spec fn wf(self) -> bool {
        tree_wf(self.bvh.root) && self.bg.wf()
    }

    /// Wraps a built hierarchy with the default sky background.
    pub fn new(bvh: BoundingVolumeHierachies) -> (w: Self)
        ensures
            w.bvh == bvh,
            w.bg == (Background {
                bottom: Color::RgbF(crate::color::RgbFloat { r: SCALE, g: SCALE, b: SCALE }),
                top: Color::RgbF(crate::color::RgbFloat { r: 500_000, g: 700_000, b: SCALE }),
            }),
            w.bg.wf(),
    {
        World {
            bvh,
            bg: Background {
                bottom: Color::newf(SCALE, SCALE, SCALE),
                top: Color::newf(500_000, 700_000, SCALE),
            },
        }
    }

    /// Replaces the background; the geometry is untouched.
    pub fn set_bg(&mut self, bg: Background)
        requires
            bg.wf(),
        ensures
            final(self).bg == bg,
            final(self).bvh == old(self).bvh,
    {
        self.bg = bg;
    }

    /// The background color along a ray.
    pub fn background(&self, ray: &Ray) -> (c: Color)
        requires
            self.bg.wf(),
            ray.direction.wf(),
        ensures
            c == background_spec(self.bg, *ray),
            color_valid(c),
            color_bounded(c),
    {
        eval_background(&self.bg, ray)
    }

    /// The closest hit in the scene, delegated to the hierarchy.
    pub fn hit(&self, ray: &Ray, t0: i64, t1: i64) -> (res: Option<HitRecord>)
        requires
            self.wf(),
            ray.wf(),
            -T_MAX <= t0 <= T_MAX,
            -T_MAX <= t1 <= T_MAX,
        ensures
            match closest_hit_t(items(self.bvh.root), *ray, t0 as int, t1 as int) {
                Option::None => res is None,
                Option::Some((i, u)) => res == Some(record_spec(*ray, items(self.bvh.root)[i], u)),
            },
            match res {
                Option::Some(h) => ray.direction.dot2(h.normal) <= 0 && h.normal.bounded(
                    SCALE as int,
                ) && h.point.bounded(2 * (MAX_COORD as int)) && h.material.wf() && t0 <= h.unit
                    < t1,
                Option::None => true,
            },
    {
        self.bvh.hit(ray, t0, t1)
    }

    /// The bounding box of the scene's geometry.
    pub fn bbox(&self, time_from: i64, time_to: i64) -> (b: Option<Aabb>)
        requires
            self.wf(),
        ensures
            match self.bvh.root {
                BvhTree::Empty => b is None,
                _ => b == Some(box_of(self.bvh.root)),
            },
    {
        self.bvh.bbox(time_from, time_to)
    }
}

} // verus!
