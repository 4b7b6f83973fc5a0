//! Surface textures: a color as a function of surface parameters and point.

use vstd::prelude::*;
use crate::color::{color_bounded, color_valid, Color};
use crate::vec3::{Point3, Vec3};

verus! {

/// A texture; the minimal variant is one solid color everywhere.
#[derive(Clone, Copy, Debug, PartialEq, Eq, Structural)]
pub enum Texture {
    Solid(Color),
}

impl Texture {
    /// The texture's colors are displayable and within conversion range.
    pub open spec fn wf(self) -> bool {
        match self {
            Texture::Solid(c) => color_valid(c) && color_bounded(c),
        }
    }

    /// The color the texture shows at surface parameters `(u, v)` and `point`.
    pub open spec fn color_spec(self, u: int, v: int, point: Vec3) -> Color {
        match self {
            Texture::Solid(c) => c,
        }
    }

    /// Samples the texture.
    pub fn color(&self, u: i64, v: i64, point: &Point3) -> (c: Color)
        ensures
            c == self.color_spec(u as int, v as int, *point),
    {
        match self {
            Texture::Solid(c) => *c,
        }
    }
}

} // verus!
