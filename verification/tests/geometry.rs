//! Boxes, spheres, and the hierarchy against the brute-force scan.

use ray_trace::aabb::Aabb;
use ray_trace::bvh::BoundingVolumeHierachies;
use ray_trace::color::Color;
use ray_trace::fixed::{EPS, SCALE, T_MAX};
use ray_trace::geometry::{Geometry, GeometryList};
use ray_trace::material::{Lambertian, Material};
use ray_trace::ray::Ray;
use ray_trace::sphere::{hit_sphere, Sphere};
use ray_trace::texture::Texture;
use ray_trace::vec3::Vec3;

fn fp(units: i64) -> i64 {
    units * SCALE
}

fn gray() -> Material {
    Material::Lambertian(Lambertian::new(Texture::Solid(Color::newf(500_000, 500_000, 500_000))))
}

fn sphere_at(x: i64, y: i64, z: i64, radius: i64) -> Geometry {
    Geometry::Sphere(Sphere::new(Vec3::new(x, y, z), radius, gray()))
}

#[test]
fn aabb_union_holds_both() {
    let a = Aabb::new(Vec3::new(fp(-1), fp(0), fp(2)), Vec3::new(fp(1), fp(3), fp(4)));
    let b = Aabb::new(Vec3::new(fp(0), fp(-2), fp(3)), Vec3::new(fp(2), fp(1), fp(5)));
    let u = a.union(&b);
    assert_eq!(u.min, Vec3::new(fp(-1), fp(-2), fp(2)));
    assert_eq!(u.max, Vec3::new(fp(2), fp(3), fp(5)));
}

#[test]
fn aabb_hit_and_miss() {
    let b = Aabb::new(Vec3::new(fp(-1), fp(-1), fp(-3)), Vec3::new(fp(1), fp(1), fp(-1)));
    let toward = Ray::new(Vec3::new(0, 0, 0), Vec3::new(0, 0, -SCALE));
    let away = Ray::new(Vec3::new(0, 0, 0), Vec3::new(0, SCALE, 0));
    assert!(b.hit(&toward, 0, T_MAX));
    assert!(!b.hit(&away, EPS, T_MAX));
    // The interval matters: the box starts one unit out.
    assert!(!b.hit(&toward, 0, 500_000));
}

#[test]
fn sphere_center_ray_roots_are_exact() {
    // A unit-direction ray through the center: distance 2, radius 0.5.
    let center = Vec3::new(0, 0, fp(-2));
    let ray = Ray::new(Vec3::new(0, 0, 0), Vec3::new(0, 0, -SCALE));
    let hit = hit_sphere(&center, 500_000, &ray).expect("the ray points at the sphere");
    assert_eq!(hit.0, fp(2) - 500_000);
    // The outward unit normal at the near point looks back at the origin.
    assert_eq!(hit.1, Vec3::new(0, 0, SCALE));
    // The hit record reports the same parameter through the full test.
    let s = Sphere::new(center, 500_000, gray());
    let rec = s.hit(&ray, EPS, T_MAX).expect("the same ray still hits");
    assert_eq!(rec.unit, fp(2) - 500_000);
    assert!(rec.outside);
}

#[test]
fn sphere_tangent_and_miss() {
    // Tangent: the ray grazes the sphere one unit to the side.
    let s = Sphere::new(Vec3::new(fp(1), 0, fp(-2)), SCALE, gray());
    let tangent = Ray::new(Vec3::new(0, 0, 0), Vec3::new(0, 0, -SCALE));
    let rec = s.hit(&tangent, EPS, T_MAX).expect("a tangent ray touches");
    assert_eq!(rec.unit, fp(2));
    // Miss: aiming well away finds nothing.
    let miss = Ray::new(Vec3::new(0, 0, 0), Vec3::new(0, SCALE, 0));
    assert!(s.hit(&miss, EPS, T_MAX).is_none());
    // Degenerate direction: no hit rather than an error.
    let zero = Ray::new(Vec3::new(0, 0, 0), Vec3::new(0, 0, 0));
    assert!(s.hit(&zero, EPS, T_MAX).is_none());
}

#[test]
fn normal_always_opposes_ray() {
    // From outside and from inside, the reported normal opposes the ray.
    let s = Sphere::new(Vec3::new(0, 0, fp(-2)), SCALE, gray());
    let from_outside = Ray::new(Vec3::new(0, 0, 0), Vec3::new(0, 0, -SCALE));
    let rec = s.hit(&from_outside, EPS, T_MAX).unwrap();
    assert!(rec.outside);
    assert!(rec.normal.z > 0);
    let from_inside = Ray::new(Vec3::new(0, 0, fp(-2)), Vec3::new(0, 0, -SCALE));
    let rec2 = s.hit(&from_inside, EPS, T_MAX).unwrap();
    assert!(!rec2.outside);
    assert!(rec2.normal.z > 0);
}

#[test]
fn bvh_matches_brute_force() {
    let spheres = [
        sphere_at(0, 0, fp(-2), 500_000),
        sphere_at(fp(1), fp(1), fp(-3), 700_000),
        sphere_at(fp(-2), 0, fp(-4), SCALE),
        sphere_at(fp(2), fp(-1), fp(-6), 300_000),
        sphere_at(0, fp(2), fp(-5), 900_000),
        sphere_at(fp(-1), fp(-1), fp(-1), 200_000),
        sphere_at(fp(3), 0, fp(-8), fp(2)),
    ];
    let mut list = GeometryList::new();
    let mut k = 0;
    while k < spheres.len() {
        list.add(spheres[k]);
        k += 1;
    }
    let mut tree_items = GeometryList::new();
    let mut j = 0;
    while j < spheres.len() {
        tree_items.add(spheres[j]);
        j += 1;
    }
    let bvh = BoundingVolumeHierachies::new(tree_items.items, 0, 0);
    let dirs = [
        Vec3::new(0, 0, -SCALE),
        Vec3::new(100_000, 50_000, -SCALE),
        Vec3::new(-300_000, 0, -SCALE),
        Vec3::new(500_000, -200_000, -900_000),
        Vec3::new(0, SCALE, 0),
        Vec3::new(-SCALE, -SCALE, -SCALE),
    ];
    let mut d = 0;
    while d < dirs.len() {
        let ray = Ray::new(Vec3::new(0, 0, 0), dirs[d]);
        let from_tree = bvh.hit(&ray, EPS, T_MAX);
        let brute = list.hit(&ray, EPS, T_MAX);
        match (&from_tree, &brute) {
            (None, None) => {}
            (Some(a), Some(b)) => {
                assert_eq!(a.unit, b.unit);
                assert_eq!(a.point, b.point);
                assert_eq!(a.normal, b.normal);
                assert_eq!(a.material, b.material);
            }
            _ => panic!("hierarchy and scan disagree"),
        }
        d += 1;
    }
}

#[test]
fn empty_bvh_hits_nothing() {
    let bvh = BoundingVolumeHierachies::new(Vec::new(), 0, 0);
    let ray = Ray::new(Vec3::new(0, 0, 0), Vec3::new(0, 0, -SCALE));
    assert!(bvh.hit(&ray, EPS, T_MAX).is_none());
    assert!(bvh.bbox(0, 0).is_none());
}

#[test]
fn bvh_interval_shrinks_to_closest() {
    // Two spheres on one line: the nearer one wins whichever side is built first.
    let mut list = GeometryList::new();
    list.add(sphere_at(0, 0, fp(-6), SCALE));
    list.add(sphere_at(0, 0, fp(-3), SCALE));
    let ray = Ray::new(Vec3::new(0, 0, 0), Vec3::new(0, 0, -SCALE));
    let rec = list.hit(&ray, EPS, T_MAX).unwrap();
    assert_eq!(rec.unit, fp(2));
    let bvh = BoundingVolumeHierachies::new(list.items, 0, 0);
    let rec2 = bvh.hit(&ray, EPS, T_MAX).unwrap();
    assert_eq!(rec2.unit, fp(2));
}
