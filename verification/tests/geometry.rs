//! Geometry kernel: quadratic solver, vector algebra, rays, projection.

use phosphorust::math::{Point2D, Point3D, Ray, Vector3, bad_quadratic};

#[test]
fn quadratic_unit_sphere_from_outside() {
    // Unit sphere at the origin, ray from (0,0,-5) along +z:
    // a = 1, b = -10, c = 24 (at scale^2), roots t = 4 and t = 6.
    let r = bad_quadratic(1_000_000_000_000, -10_000_000_000_000, 24_000_000_000_000);
    assert_eq!(r, Some((4_000_000, 6_000_000)));
}

#[test]
fn quadratic_negative_discriminant_is_none() {
    assert_eq!(bad_quadratic(1_000_000_000_000, 0, 1_000_000_000_000), None);
}

#[test]
fn quadratic_double_root() {
    let r = bad_quadratic(1_000_000_000_000, -2_000_000_000_000, 1_000_000_000_000);
    assert_eq!(r, Some((1_000_000, 1_000_000)));
}

#[test]
fn quadratic_linear_branch_duplicate_encoding() {
    // a == 0 degenerates to linear: the pair (c/b, -c/b) at root scale.
    let r = bad_quadratic(0, 2_000_000, -4_000_000);
    assert_eq!(r, Some((-2_000_000, 2_000_000)));
}

#[test]
fn quadratic_fully_degenerate_is_none() {
    assert_eq!(bad_quadratic(0, 0, 7_000_000), None);
}

#[test]
fn dot_product_is_exact() {
    let a = Vector3 { x: 1_000_000, y: 2_000_000, z: 3_000_000 };
    let b = Vector3 { x: 4_000_000, y: -5_000_000, z: 6_000_000 };
    assert_eq!(a.dot(b), 12_000_000_000_000);
}

#[test]
fn len_of_three_four_triangle() {
    let v = Vector3 { x: 3_000_000, y: 4_000_000, z: 0 };
    assert_eq!(v.len(), 5_000_000);
}

#[test]
fn len_rounds_down() {
    // |(1,1,0)| = sqrt(2) = 1.41421356..., floored at fixed-point scale.
    let v = Vector3 { x: 1_000_000, y: 1_000_000, z: 0 };
    assert_eq!(v.len(), 1_414_213);
}

#[test]
fn normalize_three_four_triangle() {
    let v = Vector3 { x: 3_000_000, y: 4_000_000, z: 0 };
    let u = v.normalize();
    assert_eq!(u, Vector3 { x: 600_000, y: 800_000, z: 0 });
}

#[test]
fn normalize_zero_vector_stays_zero() {
    let v = Vector3 { x: 0, y: 0, z: 0 };
    assert_eq!(v.normalize(), Vector3 { x: 0, y: 0, z: 0 });
}

#[test]
fn vector_scalar_mul_scales() {
    let v = Vector3 { x: 1_000_000, y: -2_000_000, z: 0 };
    assert_eq!(v.mul(500_000), Vector3 { x: 500_000, y: -1_000_000, z: 0 });
}

#[test]
fn vector_add_and_neg() {
    let a = Vector3 { x: 1, y: 2, z: 3 };
    let b = Vector3 { x: 10, y: 20, z: 30 };
    assert_eq!(a.add(b), Vector3 { x: 11, y: 22, z: 33 });
    assert_eq!(a.neg(), Vector3 { x: -1, y: -2, z: -3 });
}

#[test]
fn cross_product_of_axes() {
    let x = Vector3 { x: 1_000_000, y: 0, z: 0 };
    let y = Vector3 { x: 0, y: 1_000_000, z: 0 };
    assert_eq!(x.cross(y), Vector3 { x: 0, y: 0, z: 1_000_000 });
}

#[test]
fn point_sub_gives_vector_and_saturates() {
    let a = Point3D::new(500_000_000, 0, 0);
    let b = Point3D::new(-500_000_000, 0, 0);
    // The exact difference (10^9) saturates to the coordinate band edge.
    assert_eq!(a.sub(b), Vector3 { x: 500_000_000, y: 0, z: 0 });
}

#[test]
fn point_new_saturates_into_band() {
    let p = Point3D::new(i64::MAX, i64::MIN, 7);
    assert_eq!(p, Point3D { x: 500_000_000, y: -500_000_000, z: 7 });
}

#[test]
fn ray_from_points_normalizes_direction() {
    let r = Ray::from_points(Point3D::new(0, 0, 0), Point3D::new(0, 0, 5_000_000));
    assert_eq!(r.direction, Vector3 { x: 0, y: 0, z: 1_000_000 });
    assert_eq!(r.len(), 1_000_000);
}

#[test]
fn ray_cast_walks_the_parameter() {
    let r = Ray::new(
        Point3D::new(1_000_000, 0, 0),
        Vector3 { x: 0, y: 0, z: 1_000_000 },
    );
    assert_eq!(r.cast(3_000_000), Point3D { x: 1_000_000, y: 0, z: 3_000_000 });
}

#[test]
fn project_viewport_maps_pixels() {
    let p = Point2D { x: 3, y: -2 };
    let world = p.project_viewport(1_000_000, 1_000_000, 600, 600, 1_000_000);
    // vx = 3/600 = 0.005; vy = -2/600 floors to -0.003334.
    assert_eq!(world, Point3D { x: 5_000, y: -3_334, z: 1_000_000 });
}
