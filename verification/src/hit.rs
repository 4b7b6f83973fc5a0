//! Hit records: what an intersection test reports back.

use vstd::prelude::*;
use crate::fixed::{MAX_COORD, SCALE, T_MAX};
use crate::geometry::Geometry;
use crate::material::Material;
use crate::ray::Ray;
use crate::vec3::{lemma_dot2_neg, Point3, Vec3};

verus! {

/// An intersection: the point hit, the surface normal oriented against the
/// incoming ray, the material hit, the ray parameter, the surface
/// parametrization, and whether the ray came from outside the surface.
#[derive(Clone, Copy, Debug, PartialEq, Eq, Structural)]
pub struct HitRecord {
    pub point: Point3,
    pub normal: Vec3,
    pub material: Material,
    pub unit: i64,
    pub u: i64,
    pub v: i64,
    pub outside: bool,
}

/// The record an intersection of `r` with `g` at parameter `t` produces:
/// the raw surface normal is flipped whenever it does not oppose the ray.
pub open spec fn record_spec(r: Ray, g: Geometry, t: int) -> HitRecord {
    let point = r.at_spec(t);
    let raw = g.normal_spec(point);
    let outside = r.direction.dot2(raw) < 0;
    let normal = if outside {
        raw
    } else {
        Vec3 { x: (-raw.x) as i64, y: (-raw.y) as i64, z: (-raw.z) as i64 }
    };
    let uv = g.uv_spec(point);
    HitRecord {
        point,
        normal,
        material: g.material_spec(),
        unit: t as i64,
        u: uv.0 as i64,
        v: uv.1 as i64,
        outside,
    }
}

impl HitRecord {
    /// Builds the record for a hit of `r` on `obj` at parameter `unit`.
    /// The returned normal never points along the incoming ray.
    pub fn new(r: &Ray, obj: &Geometry, unit: i64) -> (h: HitRecord)
        requires
            r.wf(),
            obj.wf(),
            -T_MAX <= unit <= T_MAX,
        ensures
            h == record_spec(*r, *obj, unit as int),
            r.direction.dot2(h.normal) <= 0,
            h.normal.bounded(SCALE as int),
            h.unit == unit,
    {
        let point = r.at(unit);
        let mut normal = obj.normal(&point);
        let w = r.direction.dot2_wide(&normal);
        let outside = w < 0;
        if !outside {
            proof {
                lemma_dot2_neg(
                    r.direction,
                    normal,
                    Vec3 { x: (-normal.x) as i64, y: (-normal.y) as i64, z: (-normal.z) as i64 },
                );
            }
            normal.reverse();
        }
        let material = obj.material();
        let (u, v) = obj.uv(&point);
        HitRecord { point, normal, material, unit, u, v, outside }
    }
}

} // verus!
