//! The geometry kernel: points, free vectors, rays and the quadratic-root
//! solver, all on saturating fixed-point coordinates.
//!
//! Each executable operation carries an exact contract phrased over
//! `Vec3I`, a ghost mirror of a coordinate triple with unbounded integer
//! components.

use vstd::prelude::*;
use crate::fixed::{
    SCALE, COORD_LIMIT, COEFF_LIMIT, clamp_coord, fdiv, sqrt_floor, is_sqrt,
    clamp_coord_i64, clamp_coord_exec, div_floor, div_floor_signed, isqrt,
    lemma_fdiv_bounds,
};

verus! {

/// Ghost mirror of a coordinate triple: the mathematical value of a
/// `Point3D` or `Vector3`, with unbounded integer components.
pub struct Vec3I {
    pub x: int,
    pub y: int,
    pub z: int,
}

impl Vec3I {
    /// All components lie in the coordinate band.
    pub open spec fn in_range(self) -> bool {
        &&& -COORD_LIMIT <= self.x <= COORD_LIMIT
        &&& -COORD_LIMIT <= self.y <= COORD_LIMIT
        &&& -COORD_LIMIT <= self.z <= COORD_LIMIT
    }

    /// Componentwise difference, saturated into the coordinate band.
    pub open spec fn sub(self, o: Vec3I) -> Vec3I {
        Vec3I {
            x: clamp_coord(self.x - o.x),
            y: clamp_coord(self.y - o.y),
            z: clamp_coord(self.z - o.z),
        }
    }

    /// Componentwise sum, saturated into the coordinate band.
    pub open spec fn add(self, o: Vec3I) -> Vec3I {
        Vec3I {
            x: clamp_coord(self.x + o.x),
            y: clamp_coord(self.y + o.y),
            z: clamp_coord(self.z + o.z),
        }
    }

    /// Componentwise negation.
    pub open spec fn neg(self) -> Vec3I {
        Vec3I { x: -self.x, y: -self.y, z: -self.z }
    }

    /// Scaling by a fixed-point factor `k` (raw, `SCALE` = 1.0), saturated.
    pub open spec fn scale(self, k: int) -> Vec3I {
        Vec3I {
            x: clamp_coord(fdiv(self.x * k, SCALE as int)),
            y: clamp_coord(fdiv(self.y * k, SCALE as int)),
            z: clamp_coord(fdiv(self.z * k, SCALE as int)),
        }
    }

    /// Dot product, exact.  The result carries scale `SCALE * SCALE`.
    pub open spec fn dot(self, o: Vec3I) -> int {
        self.x * o.x + self.y * o.y + self.z * o.z
    }

    /// Squared Euclidean length, exact, at scale `SCALE * SCALE`.
    pub open spec fn norm2(self) -> int {
        self.dot(self)
    }

    /// Euclidean length: the integer square root of the squared length.
    pub open spec fn len(self) -> int {
        sqrt_floor(self.norm2())
    }

    /// Direction scaled to unit length; the zero vector maps to itself.
    pub open spec fn unit(self) -> Vec3I {
        let l = self.len();
        if l <= 0 {
            Vec3I { x: 0, y: 0, z: 0 }
        } else {
            Vec3I {
                x: fdiv(self.x * SCALE, l),
                y: fdiv(self.y * SCALE, l),
                z: fdiv(self.z * SCALE, l),
            }
        }
    }

    /// Cross product: each component carries scale `SCALE * SCALE` and is
    /// brought back to coordinate scale, saturated.
    pub open spec fn cross(self, o: Vec3I) -> Vec3I {
        Vec3I {
            x: clamp_coord(fdiv(self.y * o.z - self.z * o.y, SCALE as int)),
            y: clamp_coord(fdiv(self.z * o.x - self.x * o.z, SCALE as int)),
            z: clamp_coord(fdiv(self.x * o.y - self.y * o.x, SCALE as int)),
        }
    }
}

/// The mirror reflection of `r` about the axis `n`:
/// `2 * (n . r) * n - r`, evaluated in fixed point with one floor
/// division per component, saturated.
pub open spec fn reflect_vec(r: Vec3I, n: Vec3I) -> Vec3I {
    let d = n.dot(r);
    Vec3I {
        x: clamp_coord(fdiv(2 * d * n.x, (SCALE as int) * (SCALE as int)) - r.x),
        y: clamp_coord(fdiv(2 * d * n.y, (SCALE as int) * (SCALE as int)) - r.y),
        z: clamp_coord(fdiv(2 * d * n.z, (SCALE as int) * (SCALE as int)) - r.z),
    }
}

/// The exact (unrounded, unsaturated) numerator of the reflection of `r`
/// about `n`, in homogeneous form: `2 * (n . r) * n - (n . n) * r`.
/// Dividing by `n . n` recovers the real-valued mirror image.
pub open spec fn reflect_num(r: Vec3I, n: Vec3I) -> Vec3I {
    let d = n.dot(r);
    let m = n.norm2();
    Vec3I {
        x: 2 * d * n.x - m * r.x,
        y: 2 * d * n.y - m * r.y,
        z: 2 * d * n.z - m * r.z,
    }
}

/// The reflection law, exactly: reflecting about any axis `n` preserves
/// length and incidence angle.  In homogeneous form (components carry the
/// extra factor `n . n`), the reflected vector's squared length is the
/// original's times `(n . n)^2`, and its dot product with the axis equals
/// the original's times `n . n` — so both the magnitude ratio and the
/// angle cosine against `n` are unchanged.
pub proof fn lemma_reflection_law(r: Vec3I, n: Vec3I)
    ensures
        reflect_num(r, n).norm2() == n.norm2() * n.norm2() * r.norm2(),
        reflect_num(r, n).dot(n) == n.norm2() * n.dot(r),
{
    let d = n.dot(r);
    let m = n.norm2();
    let w = reflect_num(r, n);
    lemma_reflect_component(d, m, n.x, r.x, w.x);
    lemma_reflect_component(d, m, n.y, r.y, w.y);
    lemma_reflect_component(d, m, n.z, r.z, w.z);
    // Regroup the componentwise expansions around the sums that define
    // `d` and `m`.
    assert(4 * d * d * (n.x * n.x) + 4 * d * d * (n.y * n.y) + 4 * d * d * (n.z * n.z) == 4 * d
        * d * m) by (nonlinear_arith)
        requires
            m == n.x * n.x + n.y * n.y + n.z * n.z,
    ;
    assert(4 * d * m * (n.x * r.x) + 4 * d * m * (n.y * r.y) + 4 * d * m * (n.z * r.z) == 4 * d
        * m * d) by (nonlinear_arith)
        requires
            d == n.x * r.x + n.y * r.y + n.z * r.z,
    ;
    assert(m * m * (r.x * r.x) + m * m * (r.y * r.y) + m * m * (r.z * r.z) == m * m * (r.x * r.x
        + r.y * r.y + r.z * r.z)) by (nonlinear_arith);
    assert(4 * d * d * m - 4 * d * m * d == 0) by (nonlinear_arith);
    assert(2 * d * (n.x * n.x) + 2 * d * (n.y * n.y) + 2 * d * (n.z * n.z) == 2 * d * m)
        by (nonlinear_arith)
        requires
            m == n.x * n.x + n.y * n.y + n.z * n.z,
    ;
    assert(m * (n.x * r.x) + m * (n.y * r.y) + m * (n.z * r.z) == m * d) by (nonlinear_arith)
        requires
            d == n.x * r.x + n.y * r.y + n.z * r.z,
    ;
    assert(2 * d * m - m * d == m * d) by (nonlinear_arith);
    assert(n.norm2() * n.norm2() * r.norm2() == m * m * (r.x * r.x + r.y * r.y + r.z * r.z))
        by (nonlinear_arith)
        requires
            m == n.norm2(),
            r.norm2() == r.x * r.x + r.y * r.y + r.z * r.z,
    ;
}

/// One component of the reflection numerator, expanded.
proof fn lemma_reflect_component(d: int, m: int, nc: int, rc: int, wc: int)
    requires
        wc == 2 * d * nc - m * rc,
    ensures
        wc * wc == 4 * d * d * (nc * nc) - 4 * d * m * (nc * rc) + m * m * (rc * rc),
        wc * nc == 2 * d * (nc * nc) - m * (nc * rc),
{
    let u = 2 * d * nc;
    let v = m * rc;
    assert(wc * wc == u * u - 2 * (u * v) + v * v) by (nonlinear_arith)
        requires
            wc == u - v,
    ;
    assert(u * u == 4 * d * d * (nc * nc)) by (nonlinear_arith)
        requires
            u == 2 * d * nc,
    ;
    assert(2 * (u * v) == 4 * d * m * (nc * rc)) by (nonlinear_arith)
        requires
            u == 2 * d * nc,
            v == m * rc,
    ;
    assert(v * v == m * m * (rc * rc)) by (nonlinear_arith)
        requires
            v == m * rc,
    ;
    assert(wc * nc == u * nc - v * nc) by (nonlinear_arith)
        requires
            wc == u - v,
    ;
    assert(u * nc == 2 * d * (nc * nc)) by (nonlinear_arith)
        requires
            u == 2 * d * nc,
    ;
    assert(v * nc == m * (nc * rc)) by (nonlinear_arith)
        requires
            v == m * rc,
    ;
}

/// A centered pixel coordinate on the canvas (plain counts, not scaled).
#[derive(Clone, Copy, PartialEq, Eq, Structural, Debug)]
pub struct Point2D {
    pub x: i64,
    pub y: i64,
}

/// Largest pixel coordinate magnitude `project_viewport` accepts.
pub const PIXEL_LIMIT: i64 = 1_000_000;

impl Point2D {
    /// Map a centered pixel coordinate onto the viewport rectangle at the
    /// given projection distance: `(px * vw / cw, py * vh / ch, distance)`
    /// in camera space (fixed point, floor-rounded, saturated).
    pub fn project_viewport(
        &self,
        viewport_w: i64,
        viewport_h: i64,
        canvas_w: u32,
        canvas_h: u32,
        distance: i64,
    ) -> (r: Point3D)
        requires
            -PIXEL_LIMIT <= self.x <= PIXEL_LIMIT,
            -PIXEL_LIMIT <= self.y <= PIXEL_LIMIT,
            -COORD_LIMIT <= viewport_w <= COORD_LIMIT,
            -COORD_LIMIT <= viewport_h <= COORD_LIMIT,
            canvas_w >= 1,
            canvas_h >= 1,
        ensures
            r@ == (Vec3I {
                x: clamp_coord(fdiv(self.x * viewport_w, canvas_w as int)),
                y: clamp_coord(fdiv(self.y * viewport_h, canvas_h as int)),
                z: clamp_coord(distance as int),
            }),
            r@.in_range(),
    {
        proof {
            assert(-1_000_000_000_000_000 <= self.x * viewport_w <= 1_000_000_000_000_000
                && -1_000_000_000_000_000 <= self.y * viewport_h <= 1_000_000_000_000_000)
                by (nonlinear_arith)
                requires
                    -PIXEL_LIMIT <= self.x <= PIXEL_LIMIT,
                    -PIXEL_LIMIT <= self.y <= PIXEL_LIMIT,
                    -COORD_LIMIT <= viewport_w <= COORD_LIMIT,
                    -COORD_LIMIT <= viewport_h <= COORD_LIMIT,
            ;
        }
        let vx = div_floor(self.x as i128 * viewport_w as i128, canvas_w as i128);
        let vy = div_floor(self.y as i128 * viewport_h as i128, canvas_h as i128);
        Point3D::new(clamp_coord_exec(vx), clamp_coord_exec(vy), distance)
    }
}

/// An affine position in world or camera space (fixed point).
#[derive(Clone, Copy, PartialEq, Eq, Structural, Debug)]
pub struct Point3D {
    pub x: i64,
    pub y: i64,
    pub z: i64,
}

impl View for Point3D {
    type V = Vec3I;

    open spec fn view(&self) -> Vec3I {
        Vec3I { x: self.x as int, y: self.y as int, z: self.z as int }
    }
}

impl Point3D {
    /// Build a point, saturating each coordinate into the band.
    pub fn new(x: i64, y: i64, z: i64) -> (r: Point3D)
        ensures
            r@ == (Vec3I {
                x: clamp_coord(x as int),
                y: clamp_coord(y as int),
                z: clamp_coord(z as int),
            }),
            r@.in_range(),
    {
        Point3D { x: clamp_coord_i64(x), y: clamp_coord_i64(y), z: clamp_coord_i64(z) }
    }

    /// The free vector from `other` to `self`.
    pub fn sub(self, other: Point3D) -> (r: Vector3)
        requires
            self@.in_range(),
            other@.in_range(),
        ensures
            r@ == self@.sub(other@),
            r@.in_range(),
    {
        Vector3 {
            x: clamp_coord_i64(self.x - other.x),
            y: clamp_coord_i64(self.y - other.y),
            z: clamp_coord_i64(self.z - other.z),
        }
    }

    /// Translate the point by a vector.
    pub fn add(self, other: Vector3) -> (r: Point3D)
        requires
            self@.in_range(),
            other@.in_range(),
        ensures
            r@ == self@.add(other@),
            r@.in_range(),
    {
        Point3D {
            x: clamp_coord_i64(self.x + other.x),
            y: clamp_coord_i64(self.y + other.y),
            z: clamp_coord_i64(self.z + other.z),
        }
    }
}

/// A free vector in world or camera space (fixed point).
#[derive(Clone, Copy, PartialEq, Eq, Structural, Debug)]
pub struct Vector3 {
    pub x: i64,
    pub y: i64,
    pub z: i64,
}

impl View for Vector3 {
    type V = Vec3I;

    open spec fn view(&self) -> Vec3I {
        Vec3I { x: self.x as int, y: self.y as int, z: self.z as int }
    }
}

impl Vector3 {
    /// Euclidean length (raw, coordinate scale).
    pub fn len(&self) -> (r: i64)
        requires
            self@.in_range(),
        ensures
            r == self@.len(),
            is_sqrt(self@.norm2(), r as int),
            0 <= r <= 1_000_000_000,
    {
        let n2 = self.dot(*self);
        proof {
            assert(0 <= self@.norm2() <= 3 * (COORD_LIMIT as int) * (COORD_LIMIT as int))
                by (nonlinear_arith)
                requires
                    self@.in_range(),
                    self@.norm2() == self@.x * self@.x + self@.y * self@.y + self@.z * self@.z,
            ;
        }
        let r = isqrt(n2 as i128);
        proof {
            assert(r <= 1_000_000_000) by (nonlinear_arith)
                requires
                    is_sqrt(self@.norm2(), r as int),
                    self@.norm2() <= 3 * (COORD_LIMIT as int) * (COORD_LIMIT as int),
            ;
        }
        r as i64
    }

    /// Scale the vector to unit length; the zero vector stays zero.
    pub fn normalize(&self) -> (r: Vector3)
        requires
            self@.in_range(),
        ensures
            r@ == self@.unit(),
            r@.in_range(),
    {
        let l = self.len();
        if l == 0 {
            Vector3 { x: 0, y: 0, z: 0 }
        } else {
            proof {
                lemma_axis_le_len(self@);
            }
            let rx = div_floor(self.x as i128 * SCALE as i128, l as i128);
            let ry = div_floor(self.y as i128 * SCALE as i128, l as i128);
            let rz = div_floor(self.z as i128 * SCALE as i128, l as i128);
            proof {
                lemma_fdiv_bounds(self@.x * SCALE, l as int, SCALE as int);
                lemma_fdiv_bounds(self@.y * SCALE, l as int, SCALE as int);
                lemma_fdiv_bounds(self@.z * SCALE, l as int, SCALE as int);
                assert(-(SCALE as int) * (l as int) <= self@.x * (SCALE as int) <= (
                SCALE as int) * (l as int)) by (nonlinear_arith)
                    requires
                        -(l as int) <= self@.x <= l as int,
                        SCALE > 0,
                ;
                assert(-(SCALE as int) * (l as int) <= self@.y * (SCALE as int) <= (
                SCALE as int) * (l as int)) by (nonlinear_arith)
                    requires
                        -(l as int) <= self@.y <= l as int,
                        SCALE > 0,
                ;
                assert(-(SCALE as int) * (l as int) <= self@.z * (SCALE as int) <= (
                SCALE as int) * (l as int)) by (nonlinear_arith)
                    requires
                        -(l as int) <= self@.z <= l as int,
                        SCALE > 0,
                ;
            }
            Vector3 { x: rx as i64, y: ry as i64, z: rz as i64 }
        }
    }

    /// Dot product, exact (scale `SCALE * SCALE`).
    pub fn dot(&self, other: Vector3) -> (r: i64)
        requires
            self@.in_range(),
            other@.in_range(),
        ensures
            r == self@.dot(other@),
            -3 * (COORD_LIMIT as int) * (COORD_LIMIT as int) <= r <= 3 * (COORD_LIMIT as int)
                * (COORD_LIMIT as int),
    {
        proof {
            lemma_dot_bounds(self@, other@);
        }
        self.x * other.x + self.y * other.y + self.z * other.z
    }

    /// Cross product (brought back to coordinate scale, saturated).
    pub fn cross(&self, other: Vector3) -> (r: Vector3)
        requires
            self@.in_range(),
            other@.in_range(),
        ensures
            r@ == self@.cross(other@),
            r@.in_range(),
    {
        proof {
            let lim = (COORD_LIMIT as int) * (COORD_LIMIT as int);
            assert(-lim <= self@.y * other@.z <= lim && -lim <= self@.z * other@.y <= lim
                && -lim <= self@.z * other@.x <= lim && -lim <= self@.x * other@.z <= lim
                && -lim <= self@.x * other@.y <= lim && -lim <= self@.y * other@.x <= lim)
                by (nonlinear_arith)
                requires
                    lim == (COORD_LIMIT as int) * (COORD_LIMIT as int),
                    -COORD_LIMIT <= self@.x <= COORD_LIMIT,
                    -COORD_LIMIT <= self@.y <= COORD_LIMIT,
                    -COORD_LIMIT <= self@.z <= COORD_LIMIT,
                    -COORD_LIMIT <= other@.x <= COORD_LIMIT,
                    -COORD_LIMIT <= other@.y <= COORD_LIMIT,
                    -COORD_LIMIT <= other@.z <= COORD_LIMIT,
            ;
        }
        let cx = div_floor(self.y as i128 * other.z as i128 - self.z as i128 * other.y as i128,
            SCALE as i128);
        let cy = div_floor(self.z as i128 * other.x as i128 - self.x as i128 * other.z as i128,
            SCALE as i128);
        let cz = div_floor(self.x as i128 * other.y as i128 - self.y as i128 * other.x as i128,
            SCALE as i128);
        Vector3 { x: clamp_coord_exec(cx), y: clamp_coord_exec(cy), z: clamp_coord_exec(cz) }
    }

    /// Scale by a fixed-point factor (raw, `SCALE` = 1.0), saturated.
    pub fn mul(self, other: i64) -> (r: Vector3)
        requires
            self@.in_range(),
        ensures
            r@ == self@.scale(other as int),
            r@.in_range(),
    {
        proof {
            lemma_scale_product_fits(self@, other as int);
        }
        let rx = div_floor(self.x as i128 * other as i128, SCALE as i128);
        let ry = div_floor(self.y as i128 * other as i128, SCALE as i128);
        let rz = div_floor(self.z as i128 * other as i128, SCALE as i128);
        Vector3 { x: clamp_coord_exec(rx), y: clamp_coord_exec(ry), z: clamp_coord_exec(rz) }
    }

    /// Componentwise sum, saturated.
    pub fn add(self, other: Vector3) -> (r: Vector3)
        requires
            self@.in_range(),
            other@.in_range(),
        ensures
            r@ == self@.add(other@),
            r@.in_range(),
    {
        Vector3 {
            x: clamp_coord_i64(self.x + other.x),
            y: clamp_coord_i64(self.y + other.y),
            z: clamp_coord_i64(self.z + other.z),
        }
    }

    /// Componentwise negation.
    pub fn neg(self) -> (r: Vector3)
        requires
            self@.in_range(),
        ensures
            r@ == self@.neg(),
            r@.in_range(),
    {
        Vector3 { x: -self.x, y: -self.y, z: -self.z }
    }
}

/// Products of in-band coordinates stay far inside `i64`.
proof fn lemma_dot_bounds(a: Vec3I, b: Vec3I)
    requires
        a.in_range(),
        b.in_range(),
    ensures
        -(COORD_LIMIT as int) * (COORD_LIMIT as int) <= a.x * b.x <= (COORD_LIMIT as int) * (
        COORD_LIMIT as int),
        -(COORD_LIMIT as int) * (COORD_LIMIT as int) <= a.y * b.y <= (COORD_LIMIT as int) * (
        COORD_LIMIT as int),
        -(COORD_LIMIT as int) * (COORD_LIMIT as int) <= a.z * b.z <= (COORD_LIMIT as int) * (
        COORD_LIMIT as int),
        -3 * (COORD_LIMIT as int) * (COORD_LIMIT as int) <= a.dot(b) <= 3 * (COORD_LIMIT as int)
            * (COORD_LIMIT as int),
{
    assert(-(COORD_LIMIT as int) * (COORD_LIMIT as int) <= a.x * b.x <= (COORD_LIMIT as int) * (
    COORD_LIMIT as int)) by (nonlinear_arith)
        requires
            -COORD_LIMIT <= a.x <= COORD_LIMIT,
            -COORD_LIMIT <= b.x <= COORD_LIMIT,
    ;
    assert(-(COORD_LIMIT as int) * (COORD_LIMIT as int) <= a.y * b.y <= (COORD_LIMIT as int) * (
    COORD_LIMIT as int)) by (nonlinear_arith)
        requires
            -COORD_LIMIT <= a.y <= COORD_LIMIT,
            -COORD_LIMIT <= b.y <= COORD_LIMIT,
    ;
    assert(-(COORD_LIMIT as int) * (COORD_LIMIT as int) <= a.z * b.z <= (COORD_LIMIT as int) * (
    COORD_LIMIT as int)) by (nonlinear_arith)
        requires
            -COORD_LIMIT <= a.z <= COORD_LIMIT,
            -COORD_LIMIT <= b.z <= COORD_LIMIT,
    ;
}

/// The scalar-scale product of an in-band coordinate with any `i64` fits
/// in `i128`.
proof fn lemma_scale_product_fits(a: Vec3I, k: int)
    requires
        a.in_range(),
        -0x8000_0000_0000_0000 <= k < 0x8000_0000_0000_0000,
    ensures
        i128::MIN < a.x * k < i128::MAX,
        i128::MIN < a.y * k < i128::MAX,
        i128::MIN < a.z * k < i128::MAX,
{
    assert(i128::MIN < a.x * k < i128::MAX && i128::MIN < a.y * k < i128::MAX && i128::MIN < a.z
        * k < i128::MAX) by (nonlinear_arith)
        requires
            -COORD_LIMIT <= a.x <= COORD_LIMIT,
            -COORD_LIMIT <= a.y <= COORD_LIMIT,
            -COORD_LIMIT <= a.z <= COORD_LIMIT,
            -0x8000_0000_0000_0000 <= k < 0x8000_0000_0000_0000,
    ;
}

/// No single coordinate can exceed the vector's length.
pub proof fn lemma_axis_le_len(a: Vec3I)
    requires
        is_sqrt(a.norm2(), a.len()),
    ensures
        -a.len() <= a.x <= a.len(),
        -a.len() <= a.y <= a.len(),
        -a.len() <= a.z <= a.len(),
{
    let l = a.len();
    assert(-l <= a.x <= l && -l <= a.y <= l && -l <= a.z <= l) by (nonlinear_arith)
        requires
            0 <= l,
            l * l <= a.x * a.x + a.y * a.y + a.z * a.z,
            a.x * a.x + a.y * a.y + a.z * a.z < (l + 1) * (l + 1),
    ;
}

/// A half-line `origin + t * direction`, parametrized by the fixed-point
/// ray parameter `t`.
#[derive(Clone, Copy, PartialEq, Eq, Structural, Debug)]
pub struct Ray {
    pub origin: Point3D,
    pub direction: Vector3,
}

impl Ray {
    /// A ray from an origin along a direction (not normalized).
    pub fn new(origin: Point3D, direction: Vector3) -> (r: Ray)
        ensures
            r.origin == origin,
            r.direction == direction,
    {
        Ray { origin, direction }
    }

    /// A ray from `origin` toward `destination`, with normalized direction.
    pub fn from_points(origin: Point3D, destination: Point3D) -> (r: Ray)
        requires
            origin@.in_range(),
            destination@.in_range(),
        ensures
            r.origin == origin,
            r.direction@ == destination@.sub(origin@).unit(),
            r.direction@.in_range(),
    {
        let direction = destination.sub(origin);
        Ray { origin, direction: direction.normalize() }
    }

    /// Length of the direction vector.
    pub fn len(&self) -> (r: i64)
        requires
            self.direction@.in_range(),
        ensures
            r == self.direction@.len(),
            0 <= r <= 1_000_000_000,
    {
        self.direction.len()
    }

    /// The point at parameter `t` along the ray.
    pub fn cast(&self, t: i64) -> (r: Point3D)
        requires
            self.origin@.in_range(),
            self.direction@.in_range(),
        ensures
            r@ == self.origin@.add(self.direction@.scale(t as int)),
            r@.in_range(),
    {
        self.origin.add(self.direction.mul(t))
    }
}

/// The two roots of `a * t^2 + b * t + c = 0` over fixed-point ray
/// parameters (`a`, `b`, `c` at scale `SCALE * SCALE`, roots at scale
/// `SCALE`), mirroring the degenerate-case policy of `bad_quadratic`.
pub open spec fn quad_roots(a: int, b: int, c: int) -> Option<(int, int)> {
    if a == 0 {
        if b != 0 {
            Some((fdiv(c * SCALE, b), fdiv(-c * SCALE, b)))
        } else {
            None
        }
    } else {
        let disc = b * b - 4 * a * c;
        if disc >= 0 {
            let sd = sqrt_floor(disc);
            let r1 = fdiv((-b + sd) * SCALE, 2 * a);
            let r2 = fdiv((-b - sd) * SCALE, 2 * a);
            if r1 <= r2 {
                Some((r1, r2))
            } else {
                Some((r2, r1))
            }
        } else {
            None
        }
    }
}

/// Solve `a * t^2 + b * t + c = 0`, returning the roots ordered
/// `(low, high)`; `None` when there is no real root.  When `a == 0` the
/// equation degenerates to linear form and the pair
/// `(c * SCALE / b, -c * SCALE / b)` is returned unordered, preserving
/// the duplicate-root encoding of the degenerate policy.
pub fn bad_quadratic(a: i64, b: i64, c: i64) -> (r: Option<(i128, i128)>)
    requires
        -COEFF_LIMIT <= a <= COEFF_LIMIT,
        -COEFF_LIMIT <= b <= COEFF_LIMIT,
        -COEFF_LIMIT <= c <= COEFF_LIMIT,
    ensures
        r matches Some(p) ==> quad_roots(a as int, b as int, c as int) == Some(
            (p.0 as int, p.1 as int),
        ),
        r is None ==> quad_roots(a as int, b as int, c as int) is None,
{
    if a == 0 {
        if b != 0 {
            let num = c as i128 * SCALE as i128;
            let r1 = div_floor_signed(num, b as i128);
            let r2 = div_floor_signed(-num, b as i128);
            Some((r1, r2))
        } else {
            None
        }
    } else {
        proof {
            lemma_quad_products_fit(a as int, b as int, c as int);
        }
        let bb = b as i128 * b as i128;
        let fourac = 4 * (a as i128) * (c as i128);
        let disc = bb - fourac;
        if disc >= 0 {
            let sd = isqrt(disc);
            proof {
                assert(sd <= 5_000_000_000_000_000_000) by (nonlinear_arith)
                    requires
                        is_sqrt(disc as int, sd as int),
                        disc <= 21_000_000_000_000_000_000_000_000_000_000_000_000i128,
                ;
            }
            let r1 = div_floor_signed((-(b as i128) + sd) * SCALE as i128, 2 * a as i128);
            let r2 = div_floor_signed((-(b as i128) - sd) * SCALE as i128, 2 * a as i128);
            if r1 <= r2 {
                Some((r1, r2))
            } else {
                Some((r2, r1))
            }
        } else {
            None
        }
    }
}

/// Quadratic coefficients within `COEFF_LIMIT` keep the discriminant and
/// root numerators far inside `i128` and inside the square-root domain.
proof fn lemma_quad_products_fit(a: int, b: int, c: int)
    requires
        -COEFF_LIMIT <= a <= COEFF_LIMIT,
        -COEFF_LIMIT <= b <= COEFF_LIMIT,
        -COEFF_LIMIT <= c <= COEFF_LIMIT,
    ensures
        -4_000_000_000_000_000_000_000_000_000_000_000_000 <= b * b
            <= 4_000_000_000_000_000_000_000_000_000_000_000_000,
        -16_000_000_000_000_000_000_000_000_000_000_000_000 <= 4 * a * c
            <= 16_000_000_000_000_000_000_000_000_000_000_000_000,
{
    assert(-4_000_000_000_000_000_000_000_000_000_000_000_000 <= b * b
        <= 4_000_000_000_000_000_000_000_000_000_000_000_000 &&
        -16_000_000_000_000_000_000_000_000_000_000_000_000 <= 4 * a * c
        <= 16_000_000_000_000_000_000_000_000_000_000_000_000) by (nonlinear_arith)
        requires
            -COEFF_LIMIT <= a <= COEFF_LIMIT,
            -COEFF_LIMIT <= b <= COEFF_LIMIT,
            -COEFF_LIMIT <= c <= COEFF_LIMIT,
    ;
}

}
