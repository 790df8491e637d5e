//! Sphere intersection and the root-sign policy.

use phosphorust::math::{Point3D, Ray, Vector3};
use phosphorust::primitive::{Primitive, Sphere};

fn unit_sphere_at(x: i64, y: i64, z: i64) -> Sphere {
    Sphere::new(Point3D::new(x, y, z), 1_000_000, 0xFF0000, 0, 0)
}

#[test]
fn outside_camera_hits_near_root() {
    // Unit sphere at the origin, ray from (0,0,-5) along +z: t = 4.
    let s = unit_sphere_at(0, 0, 0);
    let ray = Ray::new(Point3D::new(0, 0, -5_000_000), Vector3 { x: 0, y: 0, z: 1_000_000 });
    assert_eq!(s.intersect(&ray), Some(4_000_000));
}

#[test]
fn origin_inside_returns_far_root() {
    // Camera at the sphere's center: the far (exit) root, never negative.
    let s = unit_sphere_at(0, 0, 0);
    let ray = Ray::new(Point3D::new(0, 0, 0), Vector3 { x: 0, y: 0, z: 1_000_000 });
    assert_eq!(s.intersect(&ray), Some(1_000_000));
}

#[test]
fn perpendicular_offset_beyond_radius_misses() {
    // Center offset 3 units to the side of the ray line, radius 1.
    let s = unit_sphere_at(0, 3_000_000, 0);
    let ray = Ray::new(Point3D::new(0, 0, -5_000_000), Vector3 { x: 0, y: 0, z: 1_000_000 });
    assert_eq!(s.intersect(&ray), None);
}

#[test]
fn sphere_behind_camera_misses() {
    let s = unit_sphere_at(0, 0, -3_000_000);
    let ray = Ray::new(Point3D::new(0, 0, 0), Vector3 { x: 0, y: 0, z: 1_000_000 });
    assert_eq!(s.intersect(&ray), None);
}

#[test]
fn grazing_ray_hits_tangent_point() {
    let s = unit_sphere_at(0, 0, 0);
    let ray = Ray::new(
        Point3D::new(0, 1_000_000, -5_000_000),
        Vector3 { x: 0, y: 0, z: 1_000_000 },
    );
    assert_eq!(s.intersect(&ray), Some(5_000_000));
}

#[test]
fn sphere_new_saturates_radius_and_reflectivity() {
    let s = Sphere::new(Point3D::new(0, 0, 0), -5, 0x00FF00, 3, 2_000_000);
    assert_eq!(s.radius, 0);
    assert_eq!(s.reflective, 1_000_000);
}

#[test]
fn primitive_exposes_its_capabilities() {
    let s = Sphere::new(Point3D::new(1, 2, 3), 1_000_000, 0x123456, 10, 300_000);
    let p = Primitive::Sphere(s);
    assert_eq!(p.color(), 0x123456);
    assert_eq!(p.specular(), 10);
    assert_eq!(p.reflective(), 300_000);
    assert_eq!(p.get_origin(), Point3D { x: 1, y: 2, z: 3 });
    let ray = Ray::new(Point3D::new(1, 2, -4_999_997), Vector3 { x: 0, y: 0, z: 1_000_000 });
    assert_eq!(p.intersect(&ray), Some(4_000_000));
}
