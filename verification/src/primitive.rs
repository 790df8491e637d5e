//! The primitive abstraction and its sphere implementation: quadratic
//! intersection with the root-sign policy that makes a camera inside a
//! sphere still resolve the far surface.

use vstd::prelude::*;
use crate::fixed::{
    SCALE, COORD_LIMIT, clamp_range, fdiv, sqrt_floor, is_sqrt, lemma_sqrt_exists,
};
use crate::math::{Point3D, Ray, Vec3I, quad_roots, bad_quadratic};

verus! {

/// The quadratic coefficients `(a, b, c)` of the sphere-ray equation:
/// `a = d . d`, `b = 2 (to . d)`, `c = to . to - radius^2`, where `to`
/// is the (saturated) vector from the sphere center to the ray origin.
pub open spec fn quad_coeffs(s: Sphere, o: Vec3I, d: Vec3I) -> (int, int, int) {
    let to = o.sub(s.origin@);
    (d.dot(d), 2 * to.dot(d), to.dot(to) - (s.radius as int) * (s.radius as int))
}

/// The root-sign policy: both roots behind the origin means no hit; only
/// the low root behind means the origin is inside the sphere, so the far
/// root is the hit; otherwise the nearer root wins.
pub open spec fn hit_policy(roots: Option<(int, int)>) -> Option<int> {
    match roots {
        None => None,
        Some((t1, t2)) => if t1 < 0 && t2 < 0 {
            None
        } else if t1 < 0 {
            Some(t2)
        } else if t1 <= t2 {
            Some(t1)
        } else {
            Some(t2)
        },
    }
}

/// The ray parameter at which the ray from `o` along `d` first hits the
/// sphere under the root-sign policy, or nothing.
pub open spec fn sphere_hit(s: Sphere, o: Vec3I, d: Vec3I) -> Option<int> {
    let (a, b, c) = quad_coeffs(s, o, d);
    hit_policy(quad_roots(a, b, c))
}

/// A sphere with shading parameters: packed color, specular exponent and
/// a mirror-reflection coefficient in `[0, SCALE]` (fixed point for
/// `[0, 1]`).
#[derive(Clone, Copy, PartialEq, Eq, Structural, Debug)]
pub struct Sphere {
    pub origin: Point3D,
    pub radius: i64,
    pub color: u32,
    pub specular: u32,
    pub reflective: i64,
}

impl Sphere {
    /// A well-formed sphere: in-band center, radius in `[0, COORD_LIMIT]`
    /// and reflectivity in `[0, SCALE]`.
    pub open spec fn wf(self) -> bool {
        &&& self.origin@.in_range()
        &&& 0 <= self.radius <= COORD_LIMIT
        &&& 0 <= self.reflective <= SCALE
    }

    /// Build a sphere; the radius saturates into `[0, COORD_LIMIT]` and
    /// the reflectivity into `[0, SCALE]`.
    pub fn new(origin: Point3D, radius: i64, color: u32, specular: u32, reflective: i64) -> (r:
        Sphere)
        requires
            origin@.in_range(),
        ensures
            r == (Sphere {
                origin,
                radius: clamp_range(radius as int, 0, COORD_LIMIT as int) as i64,
                color,
                specular,
                reflective: clamp_range(reflective as int, 0, SCALE as int) as i64,
            }),
            r.wf(),
    {
        let rad = if radius < 0 {
            0
        } else if radius > COORD_LIMIT {
            COORD_LIMIT
        } else {
            radius
        };
        let refl = if reflective < 0 {
            0
        } else if reflective > SCALE {
            SCALE
        } else {
            reflective
        };
        Sphere { origin, radius: rad, color, specular, reflective: refl }
    }

    /// The ray parameter of the nearest hit under the root-sign policy,
    /// or `None` when the ray misses or the sphere lies wholly behind it.
    pub fn intersect(&self, ray: &Ray) -> (r: Option<i128>)
        requires
            self.wf(),
            ray.origin@.in_range(),
            ray.direction@.in_range(),
        ensures
            r matches Some(t) ==> sphere_hit(*self, ray.origin@, ray.direction@) == Some(
                t as int,
            ),
            r is None ==> sphere_hit(*self, ray.origin@, ray.direction@) is None,
    {
        let to = ray.origin.sub(self.origin);
        let a = ray.direction.dot(ray.direction);
        let b = 2 * to.dot(ray.direction);
        proof {
            assert(0 <= self.radius * self.radius
                <= (COORD_LIMIT as int) * (COORD_LIMIT as int)) by (nonlinear_arith)
                requires
                    0 <= self.radius <= COORD_LIMIT,
            ;
        }
        let rr = self.radius * self.radius;
        let c = to.dot(to) - rr;
        let roots = bad_quadratic(a, b, c);
        match roots {
            None => None,
            Some((t1, t2)) => {
                if t1 < 0 && t2 < 0 {
                    None
                } else if t1 < 0 {
                    Some(t2)
                } else if t1 <= t2 {
                    Some(t1)
                } else {
                    Some(t2)
                }
            },
        }
    }
}

/// The primitive capability set.  The set of shapes is closed, so it is
/// a tagged variant; a sphere is the one shape today.
#[derive(Clone, Copy, PartialEq, Eq, Structural, Debug)]
pub enum Primitive {
    Sphere(Sphere),
}

impl Primitive {
    /// Well-formedness of the underlying shape.
    pub open spec fn wf(self) -> bool {
        match self {
            Primitive::Sphere(s) => s.wf(),
        }
    }

    /// The hit parameter of the underlying shape.
    pub open spec fn hit(self, o: Vec3I, d: Vec3I) -> Option<int> {
        match self {
            Primitive::Sphere(s) => sphere_hit(s, o, d),
        }
    }

    /// The shape's packed surface color.
    pub open spec fn color_spec(self) -> u32 {
        match self {
            Primitive::Sphere(s) => s.color,
        }
    }

    /// The shape's specular exponent.
    pub open spec fn specular_spec(self) -> u32 {
        match self {
            Primitive::Sphere(s) => s.specular,
        }
    }

    /// The shape's reflectivity (fixed point in `[0, SCALE]`).
    pub open spec fn reflective_spec(self) -> i64 {
        match self {
            Primitive::Sphere(s) => s.reflective,
        }
    }

    /// The shape's center.
    pub open spec fn origin_spec(self) -> Point3D {
        match self {
            Primitive::Sphere(s) => s.origin,
        }
    }

    /// The ray parameter of the nearest hit, or `None`.
    pub fn intersect(&self, ray: &Ray) -> (r: Option<i128>)
        requires
            self.wf(),
            ray.origin@.in_range(),
            ray.direction@.in_range(),
        ensures
            r matches Some(t) ==> self.hit(ray.origin@, ray.direction@) == Some(t as int),
            r is None ==> self.hit(ray.origin@, ray.direction@) is None,
    {
        match self {
            Primitive::Sphere(s) => s.intersect(ray),
        }
    }

    /// The packed surface color.
    pub fn color(&self) -> (r: u32)
        ensures
            r == self.color_spec(),
    {
        match self {
            Primitive::Sphere(s) => s.color,
        }
    }

    /// The specular exponent.
    pub fn specular(&self) -> (r: u32)
        ensures
            r == self.specular_spec(),
    {
        match self {
            Primitive::Sphere(s) => s.specular,
        }
    }

    /// The reflectivity.
    pub fn reflective(&self) -> (r: i64)
        ensures
            r == self.reflective_spec(),
            self.wf() ==> 0 <= r <= SCALE,
    {
        match self {
            Primitive::Sphere(s) => s.reflective,
        }
    }

    /// The shape's center.
    pub fn get_origin(&self) -> (r: Point3D)
        ensures
            r == self.origin_spec(),
            self.wf() ==> r@.in_range(),
    {
        match self {
            Primitive::Sphere(s) => s.origin,
        }
    }
}

/// The squared magnitude of the cross product of two integer triples,
/// exact (no rounding, no saturation).
pub open spec fn cross_sq(u: Vec3I, v: Vec3I) -> int {
    let cx = u.y * v.z - u.z * v.y;
    let cy = u.z * v.x - u.x * v.z;
    let cz = u.x * v.y - u.y * v.x;
    cx * cx + cy * cy + cz * cz
}

/// Lagrange's identity for integer triples:
/// `(u . v)^2 + |u x v|^2 == |u|^2 |v|^2`.
pub proof fn lemma_lagrange_identity(u: Vec3I, v: Vec3I)
    ensures
        u.dot(v) * u.dot(v) + cross_sq(u, v) == u.norm2() * v.norm2(),
{
    let pxx = u.x * v.x;
    let pyy = u.y * v.y;
    let pzz = u.z * v.z;
    let pyz = u.y * v.z;
    let pzy = u.z * v.y;
    let pzx = u.z * v.x;
    let pxz = u.x * v.z;
    let pxy = u.x * v.y;
    let pyx = u.y * v.x;
    let d = u.dot(v);
    let cx = u.y * v.z - u.z * v.y;
    let cy = u.z * v.x - u.x * v.z;
    let cz = u.x * v.y - u.y * v.x;
    // The mixed products exchange partners.
    assert(pxx * pyy == pxy * pyx && pxx * pzz == pxz * pzx && pyy * pzz == pyz * pzy)
        by (nonlinear_arith)
        requires
            pxx == u.x * v.x,
            pyy == u.y * v.y,
            pzz == u.z * v.z,
            pyz == u.y * v.z,
            pzy == u.z * v.y,
            pzx == u.z * v.x,
            pxz == u.x * v.z,
            pxy == u.x * v.y,
            pyx == u.y * v.x,
    ;
    // Square of the dot product over the product atoms.
    assert(d * d == pxx * pxx + pyy * pyy + pzz * pzz + 2 * (pxx * pyy) + 2 * (pxx * pzz) + 2 * (
    pyy * pzz)) by (nonlinear_arith)
        requires
            d == pxx + pyy + pzz,
    ;
    // Squares of the cross-product components over the product atoms.
    assert(cx * cx == pyz * pyz - 2 * (pyz * pzy) + pzy * pzy) by (nonlinear_arith)
        requires
            cx == pyz - pzy,
    ;
    assert(cy * cy == pzx * pzx - 2 * (pxz * pzx) + pxz * pxz) by (nonlinear_arith)
        requires
            cy == pzx - pxz,
    ;
    assert(cz * cz == pxy * pxy - 2 * (pxy * pyx) + pyx * pyx) by (nonlinear_arith)
        requires
            cz == pxy - pyx,
    ;
    // The right-hand side distributes into the nine squared atoms.
    let a1 = u.x * u.x;
    let a2 = u.y * u.y;
    let a3 = u.z * u.z;
    let b1 = v.x * v.x;
    let b2 = v.y * v.y;
    let b3 = v.z * v.z;
    assert((a1 + a2 + a3) * (b1 + b2 + b3) == a1 * b1 + a1 * b2 + a1 * b3 + a2 * b1 + a2 * b2
        + a2 * b3 + a3 * b1 + a3 * b2 + a3 * b3) by (nonlinear_arith);
    assert(a1 * b1 == pxx * pxx && a1 * b2 == pxy * pxy && a1 * b3 == pxz * pxz && a2 * b1 == pyx
        * pyx && a2 * b2 == pyy * pyy && a2 * b3 == pyz * pyz && a3 * b1 == pzx * pzx && a3 * b2
        == pzy * pzy && a3 * b3 == pzz * pzz) by (nonlinear_arith)
        requires
            a1 == u.x * u.x,
            a2 == u.y * u.y,
            a3 == u.z * u.z,
            b1 == v.x * v.x,
            b2 == v.y * v.y,
            b3 == v.z * v.z,
            pxx == u.x * v.x,
            pyy == u.y * v.y,
            pzz == u.z * v.z,
            pyz == u.y * v.z,
            pzy == u.z * v.y,
            pzx == u.z * v.x,
            pxz == u.x * v.z,
            pxy == u.x * v.y,
            pyx == u.y * v.x,
    ;
}

/// A ray whose line passes the sphere's center at a perpendicular offset
/// greater than the radius returns no hit.  The offset condition is
/// stated exactly: the squared cross product of center-to-origin and
/// direction (the squared area spanned) exceeds `radius^2 |d|^2`.
pub proof fn lemma_ray_misses_sphere(s: Sphere, o: Vec3I, d: Vec3I)
    requires
        cross_sq(o.sub(s.origin@), d) > (s.radius as int) * (s.radius as int) * d.norm2(),
    ensures
        sphere_hit(s, o, d) is None,
{
    let to = o.sub(s.origin@);
    let (a, b, c) = quad_coeffs(s, o, d);
    let rr = (s.radius as int) * (s.radius as int);
    lemma_lagrange_identity(to, d);
    // The direction cannot be zero: a zero direction would make both
    // sides of the offset condition zero.
    if a == 0 {
        assert(d.x == 0 && d.y == 0 && d.z == 0) by (nonlinear_arith)
            requires
                d.x * d.x + d.y * d.y + d.z * d.z == 0,
        ;
        assert(cross_sq(to, d) == 0);
        assert(rr * d.norm2() == 0) by (nonlinear_arith)
            requires
                d.norm2() == 0,
        ;
        assert(false);
    }
    assert(a > 0) by (nonlinear_arith)
        requires
            a == d.x * d.x + d.y * d.y + d.z * d.z,
            a != 0,
    ;
    // disc = b^2 - 4 a c = 4 ((to . d)^2 - |d|^2 |to|^2 + |d|^2 r^2)
    //      = 4 (|d|^2 r^2 - |to x d|^2) < 0.
    let disc = b * b - 4 * a * c;
    assert(disc == 4 * ((to.dot(d)) * (to.dot(d)) - a * (to.dot(to)) + a * rr))
        by (nonlinear_arith)
        requires
            b == 2 * to.dot(d),
            c == to.dot(to) - rr,
            disc == b * b - 4 * a * c,
    ;
    assert(a * (to.dot(to)) == (to.dot(d)) * (to.dot(d)) + cross_sq(to, d)) by (nonlinear_arith)
        requires
            (to.dot(d)) * (to.dot(d)) + cross_sq(to, d) == to.norm2() * a,
            to.norm2() == to.dot(to),
    ;
    assert(a * rr == rr * a) by (nonlinear_arith);
    assert(rr * a < cross_sq(to, d)) by (nonlinear_arith)
        requires
            cross_sq(to, d) > rr * d.norm2(),
            a == d.norm2(),
    ;
    assert(disc < 0);
}

/// A ray that starts strictly inside the sphere hits it at the far
/// (high) root, which is never negative.  "Strictly inside" is sharpened
/// by one rounding unit: `-4 a c` must exceed `2 |b|`, which makes the
/// floor-rounded low root strictly negative.
pub proof fn lemma_origin_inside_sphere(s: Sphere, o: Vec3I, d: Vec3I)
    requires
        quad_coeffs(s, o, d).0 >= 1,
        quad_coeffs(s, o, d).2 < 0,
        -4 * quad_coeffs(s, o, d).0 * quad_coeffs(s, o, d).2 > 2 * abs_int(
            quad_coeffs(s, o, d).1,
        ),
    ensures
        ({
            let (a, b, c) = quad_coeffs(s, o, d);
            let hi = fdiv((-b + sqrt_floor(b * b - 4 * a * c)) * SCALE, 2 * a);
            sphere_hit(s, o, d) == Some(hi) && hi >= 0
        }),
{
    let (a, b, c) = quad_coeffs(s, o, d);
    let ab = abs_int(b);
    let disc = b * b - 4 * a * c;
    assert(-4 * a * c == -(4 * a * c)) by (nonlinear_arith);
    assert(disc >= b * b + 2 * ab + 1);
    assert(b * b == ab * ab) by (nonlinear_arith)
        requires
            ab == abs_int(b),
    ;
    assert(disc >= 0);
    lemma_sqrt_exists(disc);
    let sd = sqrt_floor(disc);
    assert(sd > ab) by (nonlinear_arith)
        requires
            is_sqrt(disc, sd),
            disc >= ab * ab + 2 * ab + 1,
            0 <= ab,
    ;
    let lo_num = (-b - sd) * SCALE;
    let hi_num = (-b + sd) * SCALE;
    assert(-b - sd < 0 && -b + sd > 0);
    assert(lo_num < 0 && hi_num > 0) by (nonlinear_arith)
        requires
            -b - sd < 0 < -b + sd,
            SCALE as int > 0,
            lo_num == (-b - sd) * SCALE,
            hi_num == (-b + sd) * SCALE,
    ;
    let lo = fdiv(lo_num, 2 * a);
    let hi = fdiv(hi_num, 2 * a);
    vstd::arithmetic::div_mod::lemma_div_is_ordered(lo_num, -1, 2 * a);
    assert((-1) / (2 * a) == -1) by (nonlinear_arith)
        requires
            a >= 1,
    ;
    vstd::arithmetic::div_mod::lemma_div_pos_is_pos(hi_num, 2 * a);
    vstd::arithmetic::div_mod::lemma_div_is_ordered(lo_num, hi_num, 2 * a);
    assert(lo < 0 && hi >= 0 && lo <= hi);
    assert(quad_roots(a, b, c) == Some((lo, hi)));
    assert(sphere_hit(s, o, d) == Some(hi));
}

/// The absolute value of an integer.
pub open spec fn abs_int(x: int) -> int {
    if x >= 0 {
        x
    } else {
        -x
    }
}

}
