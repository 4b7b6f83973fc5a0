//! Materials: how a surface answers an incoming ray.

use vstd::prelude::*;
use crate::color::Color;
use crate::fixed::{MAX_COORD, SCALE};
use crate::hit::HitRecord;
use crate::ray::Ray;
use crate::texture::Texture;
use crate::vec3::{Point3, Vec3};

verus! {

/// What a scattering material hands back: an attenuation color and the
/// outgoing ray.
#[derive(Clone, Copy, Debug, PartialEq, Eq, Structural)]
pub struct ScatterRecord {
    pub color: Color,
    pub ray: Ray,
}

/// The diffuse direction the scattered ray leaves along: the surface normal
/// nudged by a sample `q` from the unit ball.
pub open spec fn diffuse_dir_ok(dir: Vec3, normal: Vec3) -> bool {
    ({
        let q = Vec3 {
            x: (dir.x - normal.x) as i64,
            y: (dir.y - normal.y) as i64,
            z: (dir.z - normal.z) as i64,
        };
        q.bounded(SCALE as int) && q.ls2() < (SCALE as int) * (SCALE as int)
    })
}

/// The formula a Lambertian material scatters by.
#[derive(Clone, Copy, Debug, PartialEq, Eq, Structural)]
pub enum LambertianMathType {
    Approximate,
}

impl LambertianMathType {
    /// The scattered ray: it starts at the hit point and leaves along the
    /// normal displaced by a random unit-ball sample.
    pub fn scatter_ray(&self, ray: &Ray, hit: &HitRecord) -> (r: Ray)
        requires
            hit.point.bounded(2 * (MAX_COORD as int)),
            hit.normal.bounded(SCALE as int),
        ensures
            r.origin == hit.point,
            diffuse_dir_ok(r.direction, hit.normal),
            r.wf(),
    {
        match self {
            Self::Approximate => {
                let q = Vec3::random_in_unit_sphere();
                Ray::new(hit.point, hit.normal.add(&q))
            },
        }
    }
}

/// A diffuse material colored by a texture.
#[derive(Clone, Copy, Debug, PartialEq, Eq, Structural)]
pub struct Lambertian {
    pub texture: Texture,
    pub math_type: LambertianMathType,
}

impl Lambertian {
    pub fn new(texture: Texture) -> (m: Self)
        ensures
            m == (Lambertian { texture, math_type: LambertianMathType::Approximate }),
    {
        Lambertian { texture, math_type: LambertianMathType::Approximate }
    }

    /// Replaces the scattering formula, for chaining at construction.
    pub fn math_type(self, value: LambertianMathType) -> (m: Self)
        ensures
            m == (Lambertian { texture: self.texture, math_type: value }),
    {
        Lambertian { texture: self.texture, math_type: value }
    }
}

/// A surface material; the minimal set holds the Lambertian diffuse variant.
#[derive(Clone, Copy, Debug, PartialEq, Eq, Structural)]
pub enum Material {
    Lambertian(Lambertian),
}

impl Material {
    /// The material's texture colors are displayable.
    pub open spec fn wf(self) -> bool {
        match self {
            Material::Lambertian(l) => l.texture.wf(),
        }
    }

    /// The attenuation color scattering at a hit would carry.
    pub open spec fn attenuation_spec(self, h: HitRecord) -> Color {
        match self {
            Material::Lambertian(l) => l.texture.color_spec(h.u as int, h.v as int, h.point),
        }
    }

    /// Scatters the incoming ray at a hit.  A Lambertian always scatters:
    /// the attenuation is the texture color at the hit, and the outgoing ray
    /// leaves the hit point along the displaced normal.
    pub fn scatter(&self, ray: &Ray, hit: HitRecord) -> (r: Option<ScatterRecord>)
        requires
            hit.point.bounded(2 * (MAX_COORD as int)),
            hit.normal.bounded(SCALE as int),
        ensures
            match *self {
                Material::Lambertian(_) => match r {
                    Option::Some(s) => s.color == self.attenuation_spec(hit) && s.ray.origin
                        == hit.point && diffuse_dir_ok(s.ray.direction, hit.normal) && s.ray.wf(),
                    Option::None => false,
                },
            },
    {
        match self {
            Material::Lambertian(l) => {
                let color = l.texture.color(hit.u, hit.v, &hit.point);
                let new_ray = l.math_type.scatter_ray(ray, &hit);
                Some(ScatterRecord { color, ray: new_ray })
            },
        }
    }

    /// The light the material emits at a point: none, for every material in
    /// the minimal set.
    pub fn emitted(&self, point: &Point3) -> (r: Option<Vec3>)
        ensures
            r is None,
    {
        None
    }
}

} // verus!
