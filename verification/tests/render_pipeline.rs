//! The camera, the integrator, and the PPM output, end to end.

use ray_trace::camera::CameraBuilder;
use ray_trace::color::Color;
use ray_trace::fixed::{EPS, SCALE, T_MAX};
use ray_trace::geometry::{Geometry, GeometryList};
use ray_trace::material::{Lambertian, Material};
use ray_trace::painter::{dec_string, pixel_line, LimitedSink, VecSink};
use ray_trace::ray::Ray;
use ray_trace::render::TakePhotoSettings;
use ray_trace::sphere::Sphere;
use ray_trace::texture::Texture;
use ray_trace::vec3::Vec3;
use ray_trace::world::{default_background, World};

fn fp(units: i64) -> i64 {
    units * SCALE
}

fn solid(r: i64, g: i64, b: i64) -> Material {
    Material::Lambertian(Lambertian::new(Texture::Solid(Color::newf(r, g, b))))
}

fn unit_sphere_scene(material: Material) -> World {
    let mut list = GeometryList::new();
    list.add(Geometry::Sphere(Sphere::new(Vec3::new(0, 0, -SCALE), 500_000, material)));
    World::new(list.build(0, 0))
}

#[test]
fn decimal_lines_format() {
    assert_eq!(dec_string(0).as_str(), "0");
    assert_eq!(dec_string(7).as_str(), "7");
    assert_eq!(dec_string(255).as_str(), "255");
    assert_eq!(dec_string(1060).as_str(), "1060");
    assert_eq!(pixel_line(0, 127, 255).as_str(), "0 127 255");
}

#[test]
fn camera_center_ray_hits_and_reports_outside() {
    let builder = CameraBuilder::default().aspect_ratio(fp(2));
    assert!(builder.can_build());
    let camera = builder.build();
    let world = unit_sphere_scene(solid(SCALE, SCALE, SCALE));
    let ray = camera.ray(SCALE / 2, SCALE / 2);
    let rec = world.hit(&ray, EPS, T_MAX).expect("the center ray meets the sphere");
    assert!(rec.outside);
    assert!(rec.unit > 0);
}

#[test]
fn upward_ray_sees_sky_endpoint() {
    let world = unit_sphere_scene(solid(SCALE, SCALE, SCALE));
    let up = Ray::new(Vec3::new(0, 0, 0), Vec3::new(0, SCALE, 0));
    assert!(world.hit(&up, EPS, T_MAX).is_none());
    let c = TakePhotoSettings::ray_color(&up, &world, 8);
    let ints = c.int_form();
    // Straight up is the pure sky endpoint (0.5, 0.7, 1.0).
    assert_eq!((ints.r, ints.g, ints.b), (127, 178, 255));
    // The default background function reports the same color.
    let d = default_background(&up).int_form();
    assert_eq!((d.r, d.g, d.b), (127, 178, 255));
}

#[test]
fn downward_ray_sees_ground_endpoint() {
    let world = unit_sphere_scene(solid(SCALE, SCALE, SCALE));
    let down = Ray::new(Vec3::new(0, 0, 0), Vec3::new(0, -SCALE, 0));
    let c = TakePhotoSettings::ray_color(&down, &world, 8);
    let ints = c.int_form();
    // Straight down is the pure white endpoint.
    assert_eq!((ints.r, ints.g, ints.b), (255, 255, 255));
}

#[test]
fn depth_zero_is_black() {
    let world = unit_sphere_scene(solid(SCALE, SCALE, SCALE));
    let ray = Ray::new(Vec3::new(0, 0, 0), Vec3::new(0, 0, -SCALE));
    let c = TakePhotoSettings::ray_color(&ray, &world, 0);
    let ints = c.int_form();
    assert_eq!((ints.r, ints.g, ints.b), (0, 0, 0));
}

#[test]
fn red_sphere_tints_its_reflection() {
    // A strongly red surface must tint what it reflects: the sky gradient
    // never has more red than green, so an untinted bounce could not give
    // a red-dominant pixel.
    let world = unit_sphere_scene(solid(800_000, 100_000, 100_000));
    let ray = Ray::new(Vec3::new(0, 0, 0), Vec3::new(0, 0, -SCALE));
    let c = TakePhotoSettings::ray_color(&ray, &world, 3);
    let ints = c.int_form();
    assert!(ints.r > ints.g);
}

#[test]
fn end_to_end_single_sample_image() {
    let builder = CameraBuilder::default().aspect_ratio(fp(2));
    assert!(builder.can_build());
    let camera = builder.build();
    let world = unit_sphere_scene(solid(SCALE, SCALE, SCALE));
    let settings = TakePhotoSettings::new(camera, world).height(4).samples(1).max_reflection(8);
    let (sink, outcome) = settings.shot(VecSink::new());
    assert!(outcome.is_ok());
    // Width: 4 * 2.0 rounded; three header lines then one line per pixel.
    assert_eq!(sink.lines.len(), 3 + 8 * 4);
    assert_eq!(sink.lines[0].as_str(), "P3");
    assert_eq!(sink.lines[1].as_str(), "8 4");
    assert_eq!(sink.lines[2].as_str(), "255");
    // The corner pixels miss the sphere, so their lines are the quantized
    // background, which this recomputes through the public pieces.
    let world2 = unit_sphere_scene(solid(SCALE, SCALE, SCALE));
    let top_left_uv = (0i64, ((4 - 1) * SCALE) / 4);
    let bottom_left_uv = (0i64, 0i64);
    let top_ray = camera.ray(top_left_uv.0, top_left_uv.1);
    let bottom_ray = camera.ray(bottom_left_uv.0, bottom_left_uv.1);
    let top_color = TakePhotoSettings::ray_color(&top_ray, &world2, 8).int_form();
    let bottom_color = TakePhotoSettings::ray_color(&bottom_ray, &world2, 8).int_form();
    let top_line = pixel_line(top_color.r, top_color.g, top_color.b);
    let bottom_line = pixel_line(bottom_color.r, bottom_color.g, bottom_color.b);
    assert_eq!(sink.lines[3].as_str(), top_line.as_str());
    assert_eq!(sink.lines[3 + 3 * 8].as_str(), bottom_line.as_str());
    // Rows run top to bottom: the top of the image leans to the sky color,
    // the bottom to white.
    assert!(top_color.r < bottom_color.r);
    assert_eq!(bottom_color.b, 255);
}

#[test]
fn bounded_sink_reports_write_failure() {
    let builder = CameraBuilder::default().aspect_ratio(fp(2));
    let camera = builder.build();
    let world = unit_sphere_scene(solid(SCALE, SCALE, SCALE));
    let settings = TakePhotoSettings::new(camera, world).height(4).samples(1);
    let (sink, outcome) = settings.shot(LimitedSink::new(5));
    assert!(outcome.is_err());
    // The sink holds a proper prefix of the render: the whole header and
    // the first two pixel lines, nothing after the failing write.
    assert_eq!(sink.lines.len(), 5);
    assert_eq!(sink.lines[0].as_str(), "P3");
    assert_eq!(sink.lines[1].as_str(), "8 4");
    assert_eq!(sink.lines[2].as_str(), "255");
    assert!(sink.lines[3].as_str().split(' ').count() == 3);
}
