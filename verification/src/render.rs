//! Staging and tracing a photo: the recursive light-transport evaluator.

use vstd::prelude::*;
use crate::bvh::items;
use crate::camera::Camera;
use crate::color::{color_bounded, color_valid, fb, fg, fr, Color, RgbFloat};
use crate::fixed::{EPS, SCALE, T_MAX, tdiv, div_t};
use crate::geometry::closest_hit_t;
use crate::hit::record_spec;
use crate::painter::{draw_err_post, draw_ok_post, px_width, Painter, PpmSink, RenderError};
use crate::ray::Ray;
use crate::world::{background_spec, Background, World};

verus! {

/// Everything needed to shoot one photo: the camera, the scene, and the
/// sampling parameters.
#[derive(Debug)]
pub struct TakePhotoSettings {
    pub camera: Camera,
    pub world: World,
    pub max_reflection: usize,
    pub picture_height: usize,
    pub samples: usize,
    pub gamma: bool,
}

impl TakePhotoSettings {
    /// Sampling parameters the painter accepts, over a usable camera and scene.
    pub open spec fn wf(self) -> bool {
        &&& self.camera.wf()
        &&& self.world.wf()
        &&& 1 <= self.samples <= 1_000_000
        &&& 1 <= self.picture_height <= 4_000
        &&& self.max_reflection <= 100
        &&& tdiv(
            self.picture_height * self.camera.aspect_ratio + (SCALE as int) / 2,
            SCALE as int,
        ) >= 1
    }

    /// Stages a photo with default depth, height, and sampling.
    pub fn new(camera: Camera, world: World) -> (t: Self)
        ensures
            t == (TakePhotoSettings {
                camera,
                world,
                max_reflection: 8,
                picture_height: 108,
                samples: 50,
                gamma: false,
            }),
    {
        TakePhotoSettings { camera, world, max_reflection: 8, picture_height: 108, samples: 50, gamma: false }
    }

    /// Replaces the scene's background, for chaining.
    pub fn background(self, bg: Background) -> (t: Self)
        requires
            bg.wf(),
        ensures
            t.world.bg == bg,
            t.world.bvh == self.world.bvh,
            t.camera == self.camera,
            t.max_reflection == self.max_reflection,
            t.picture_height == self.picture_height,
            t.samples == self.samples,
            t.gamma == self.gamma,
    {
        let mut world = self.world;
        world.set_bg(bg);
        TakePhotoSettings { world, ..self }
    }

    /// Caps the recursion depth, for chaining.
    pub fn max_reflection(self, max_reflection: usize) -> (t: Self)
        ensures
            t == (TakePhotoSettings { max_reflection, ..self }),
    {
        TakePhotoSettings { max_reflection, ..self }
    }

    /// Sets the output height in pixels, for chaining.
    pub fn height(self, height: usize) -> (t: Self)
        ensures
            t == (TakePhotoSettings { picture_height: height, ..self }),
    {
        TakePhotoSettings { picture_height: height, ..self }
    }

    /// Sets the per-pixel sample count, for chaining.
    pub fn samples(self, samples: usize) -> (t: Self)
        ensures
            t == (TakePhotoSettings { samples, ..self }),
    {
        TakePhotoSettings { samples, ..self }
    }

    /// Switches square-root gamma correction, for chaining.
    pub fn gamma(self, gamma: bool) -> (t: Self)
        ensures
            t == (TakePhotoSettings { gamma, ..self }),
    {
        TakePhotoSettings { gamma, ..self }
    }

    /// Evaluates the light arriving along a ray, recursing on scattered rays
    /// until the depth runs out or the ray escapes into the background.
    /// Exhausted depth yields black; a miss yields the background exactly;
    /// a hit yields the scattered light attenuated channel by channel, plus
    /// any emission; the result is always a displayable color.
    pub fn ray_color(ray: &Ray, world: &World, remain_reflection: usize) -> (c: Color)
        requires
            world.wf(),
            ray.wf(),
        ensures
            color_valid(c),
            color_bounded(c),
            remain_reflection == 0 ==> c == Color::RgbF(RgbFloat { r: 0, g: 0, b: 0 }),
            remain_reflection > 0 ==> match closest_hit_t(
                items(world.bvh.root),
                *ray,
                EPS as int,
                T_MAX as int,
            ) {
                Option::None => c == background_spec(world.bg, *ray),
                Option::Some((i, u)) => ({
                    let h = record_spec(*ray, items(world.bvh.root)[i], u);
                    let att = h.material.attenuation_spec(h);
                    0 <= fr(c) <= fr(att) && 0 <= fg(c) <= fg(att) && 0 <= fb(c) <= fb(att)
                }),
            },
        decreases remain_reflection,
    {
        if remain_reflection == 0 {
            return Color::newf(0, 0, 0);
        }
        match world.hit(ray, EPS, T_MAX) {
            Option::Some(hit) => {
                let material = hit.material;
                let emitted = match material.emitted(&hit.point) {
                    Option::Some(e) => e.into_color(1, false),
                    Option::None => Color::newf(0, 0, 0),
                };
                match material.scatter(ray, hit) {
                    Option::Some(scattered) => {
                        let rec = Self::ray_color(
                            &scattered.ray,
                            world,
                            remain_reflection - 1,
                        );
                        proof {
                            crate::color::lemma_channels_valid(scattered.color);
                            crate::color::lemma_channels_valid(rec);
                            crate::color::lemma_blend_dominated(fr(scattered.color), fr(rec));
                            crate::color::lemma_blend_dominated(fg(scattered.color), fg(rec));
                            crate::color::lemma_blend_dominated(fb(scattered.color), fb(rec));
                        }
                        scattered.color.blend(&rec).add(&emitted)
                    },
                    Option::None => emitted,
                }
            },
            Option::None => world.background(ray),
        }
    }

    /// The painter a shot drives: the rounded width, the configured height,
    /// samples, and gamma switch.
    pub open spec fn shot_painter(self) -> Painter {
        Painter {
            width: px_width(self.picture_height as int, self.camera.aspect_ratio as int) as usize,
            height: self.picture_height,
            samples: self.samples,
            gamma: self.gamma,
        }
    }

    /// Shoots the photo into a sink of PPM lines: the painter drives the
    /// pixel loops and this camera and scene answer each primary ray.  The
    /// sink ends exactly as the painter's own contract says: the complete
    /// header and image on success, a proper prefix of them on failure.
    pub fn shot<S: PpmSink>(&self, sink: S) -> (r: (S, Result<(), RenderError>))
        requires
            self.wf(),
        ensures
            r.1 is Ok ==> draw_ok_post(
                self.shot_painter(),
                self.camera,
                self.world,
                self.max_reflection as int,
                sink.lines(),
                r.0.lines(),
            ),
            r.1 is Err ==> draw_err_post(self.shot_painter(), sink.lines(), r.0.lines()),
    {
        let width = Self::round_width(self.picture_height, self.camera.aspect_ratio);
        let painter = Painter::new(width, self.picture_height).samples(self.samples).gamma(
            self.gamma,
        );
        proof {
            assert(painter == self.shot_painter());
        }
        painter.draw(sink, &self.camera, &self.world, self.max_reflection)
    }

    /// The output width: the height scaled by the aspect ratio, rounded.
    pub fn round_width(height: usize, aspect_ratio: i64) -> (w: usize)
        requires
            1 <= height <= 4_000,
            0 < aspect_ratio <= 4 * SCALE,
            tdiv(height * aspect_ratio + (SCALE as int) / 2, SCALE as int) >= 1,
        ensures
            w as int == crate::painter::px_width(height as int, aspect_ratio as int),
            1 <= w <= 20_000,
    {
        proof {
            crate::fixed::lemma_mul_bounds(height as int, aspect_ratio as int, 4_000, 4 * (SCALE as int));
            crate::fixed::lemma_tdiv_bound(
                (height as int) * (aspect_ratio as int) + (SCALE as int) / 2,
                SCALE as int,
                20_000,
            );
        }
        let h = height as i64;
        let q = div_t(h * aspect_ratio + SCALE / 2, SCALE);
        q as usize
    }
}

} // verus!
