//! Rays: an origin and a direction, parametrized by a fixed-point scalar.

use vstd::prelude::*;
use crate::fixed::{SCALE, T_MAX, tdiv, div_t_wide, lemma_mul_bounds, lemma_tdiv_bound};
use crate::vec3::{Point3, Vec3};

verus! {

/// A half-line: all points `origin + t * direction` for `t >= 0`.
#[derive(Clone, Copy, Debug, PartialEq, Eq, Structural)]
pub struct Ray {
    pub origin: Point3,
    pub direction: Vec3,
}

impl Ray {
    /// The origin may sit anywhere a hit point can (on a box corner, up to
    /// twice the coordinate range); the direction is an ordinary coordinate.
    pub open spec fn wf(self) -> bool {
        self.origin.bounded(2 * (crate::fixed::MAX_COORD as int)) && self.direction.wf()
    }

    /// The point reached at parameter `t`, with one truncated rescale per axis.
    pub open spec fn at_spec(self, t: int) -> Vec3 {
        Vec3 {
            x: (self.origin.x + tdiv(t * self.direction.x, SCALE as int)) as i64,
            y: (self.origin.y + tdiv(t * self.direction.y, SCALE as int)) as i64,
            z: (self.origin.z + tdiv(t * self.direction.z, SCALE as int)) as i64,
        }
    }

    pub fn new(origin: Point3, direction: Vec3) -> (r: Self)
        ensures
            r == (Ray { origin, direction }),
    {
        Ray { origin, direction }
    }

    /// The point reached at parameter `unit`.
    pub fn at(&self, unit: i64) -> (p: Point3)
        requires
            self.wf(),
            -T_MAX <= unit <= T_MAX,
        ensures
            p == self.at_spec(unit as int),
            p.bounded(2_000_000_000_000_000),
    {
        proof {
            lemma_at_part(self.origin.x as int, self.direction.x as int, unit as int);
            lemma_at_part(self.origin.y as int, self.direction.y as int, unit as int);
            lemma_at_part(self.origin.z as int, self.direction.z as int, unit as int);
        }
        let x = self.origin.x + div_t_wide((unit as i128) * (self.direction.x as i128), SCALE as i128) as i64;
        let y = self.origin.y + div_t_wide((unit as i128) * (self.direction.y as i128), SCALE as i128) as i64;
        let z = self.origin.z + div_t_wide((unit as i128) * (self.direction.z as i128), SCALE as i128) as i64;
        Vec3 { x, y, z }
    }
}

/// Bounds for one axis of [`Ray::at`].
proof fn lemma_at_part(o: int, d: int, t: int)
    requires
        -2 * crate::fixed::MAX_COORD <= o <= 2 * crate::fixed::MAX_COORD,
        -crate::fixed::MAX_COORD <= d <= crate::fixed::MAX_COORD,
        -T_MAX <= t <= T_MAX,
    ensures
        t * d > i128::MIN as int,
        -2_000_000_000_000_000 <= o + tdiv(t * d, SCALE as int) <= 2_000_000_000_000_000,
{
    lemma_mul_bounds(t, d, T_MAX as int, crate::fixed::MAX_COORD as int);
    lemma_tdiv_bound(t * d, SCALE as int, 1_000_000_000_000_000);
}

} // verus!
