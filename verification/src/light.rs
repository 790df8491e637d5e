//! The light model: a tagged variant over point, directional and ambient
//! lights.  Each non-ambient light yields, for a surface point, a
//! direction toward the light and the largest shadow-ray parameter that
//! still lies between the surface and the light.

use vstd::prelude::*;
use crate::fixed::{SCALE, clamp_range};
use crate::math::{Point3D, Vector3, Vec3I};

verus! {

/// Largest light intensity accepted (raw fixed point; one million times
/// full intensity), so that lighting sums stay inside `i128`.
pub const INTENSITY_LIMIT: i64 = 1_000_000_000_000;

/// A light source.
#[derive(Clone, Copy, PartialEq, Eq, Structural, Debug)]
pub enum Light {
    Point { intensity: i64, position: Point3D },
    Directional { intensity: i64, direction: Vector3 },
    Ambient { intensity: i64 },
}

/// What `Light::vector` yields for a surface point, on the ghost mirror:
/// the (unnormalized) direction toward the light, and the largest shadow
/// parameter in units of that direction's own length — `SCALE` (= 1.0,
/// "up to the light itself") for a point light, `100 * SCALE` (a stand-in
/// for unbounded) for a directional one, nothing for ambient light.
pub open spec fn light_vector_spec(l: Light, p: Vec3I) -> Option<(Vec3I, int)> {
    match l {
        Light::Point { intensity: _, position } => Some((position@.sub(p), SCALE as int)),
        Light::Directional { intensity: _, direction } => Some(
            (direction@, 100 * (SCALE as int)),
        ),
        Light::Ambient { intensity: _ } => None,
    }
}

impl Light {
    /// The intensity field, whichever the variant.
    pub open spec fn intensity_spec(self) -> int {
        match self {
            Light::Point { intensity, .. } => intensity as int,
            Light::Directional { intensity, .. } => intensity as int,
            Light::Ambient { intensity } => intensity as int,
        }
    }

    /// A well-formed light has a nonnegative, bounded intensity and an
    /// in-band position or direction.
    pub open spec fn wf(self) -> bool {
        0 <= self.intensity_spec() <= INTENSITY_LIMIT && match self {
            Light::Point { intensity: _, position } => position@.in_range(),
            Light::Directional { intensity: _, direction } => direction@.in_range(),
            Light::Ambient { intensity: _ } => true,
        }
    }

    /// A point light; the intensity saturates into `[0, INTENSITY_LIMIT]`.
    pub fn new_point(intensity: i64, position: Point3D) -> (r: Light)
        requires
            position@.in_range(),
        ensures
            r == (Light::Point {
                intensity: clamp_range(intensity as int, 0, INTENSITY_LIMIT as int) as i64,
                position,
            }),
            r.wf(),
    {
        Light::Point { intensity: clamp_intensity(intensity), position }
    }

    /// A directional light; the intensity saturates into
    /// `[0, INTENSITY_LIMIT]`.
    pub fn new_directional(intensity: i64, direction: Vector3) -> (r: Light)
        requires
            direction@.in_range(),
        ensures
            r == (Light::Directional {
                intensity: clamp_range(intensity as int, 0, INTENSITY_LIMIT as int) as i64,
                direction,
            }),
            r.wf(),
    {
        Light::Directional { intensity: clamp_intensity(intensity), direction }
    }

    /// An ambient light; the intensity saturates into
    /// `[0, INTENSITY_LIMIT]`.
    pub fn new_ambient(intensity: i64) -> (r: Light)
        ensures
            r == (Light::Ambient {
                intensity: clamp_range(intensity as int, 0, INTENSITY_LIMIT as int) as i64,
            }),
            r.wf(),
    {
        Light::Ambient { intensity: clamp_intensity(intensity) }
    }

    /// The light's intensity.
    pub fn intensity(&self) -> (r: i64)
        ensures
            r == self.intensity_spec(),
    {
        match self {
            Light::Point { intensity, .. } => *intensity,
            Light::Directional { intensity, .. } => *intensity,
            Light::Ambient { intensity } => *intensity,
        }
    }

    /// The direction toward the light from surface point `p`, with the
    /// largest shadow parameter, or nothing for ambient light.
    pub fn vector(&self, p: Point3D) -> (r: Option<(Vector3, i64)>)
        requires
            self.wf(),
            p@.in_range(),
        ensures
            r matches Some(v) ==> light_vector_spec(*self, p@) == Some((v.0@, v.1 as int))
                && v.0@.in_range(),
            r is None ==> light_vector_spec(*self, p@) is None,
    {
        match self {
            Light::Point { intensity: _, position } => Some((position.sub(p), SCALE)),
            Light::Directional { intensity: _, direction } => Some((*direction, 100 * SCALE)),
            Light::Ambient { intensity: _ } => None,
        }
    }
}

/// Saturate an intensity into `[0, INTENSITY_LIMIT]`.
fn clamp_intensity(x: i64) -> (r: i64)
    ensures
        r == clamp_range(x as int, 0, INTENSITY_LIMIT as int),
{
    if x < 0 {
        0
    } else if x > INTENSITY_LIMIT {
        INTENSITY_LIMIT
    } else {
        x
    }
}

}
