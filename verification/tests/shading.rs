//! Color intensity utilities, the light model and shadow-aware lighting.

use phosphorust::color::{add_colors, apply_intensity};
use phosphorust::light::Light;
use phosphorust::math::{Point3D, Vector3};
use phosphorust::primitive::{Primitive, Sphere};
use phosphorust::scene::Scene;

#[test]
fn apply_intensity_half_truncates_channels() {
    // 255 * 0.5 = 127.5, truncated to 127 on every channel.
    assert_eq!(apply_intensity(0xFFFFFF, 500_000), 0x7F7F7F);
}

#[test]
fn apply_intensity_one_is_identity() {
    assert_eq!(apply_intensity(0x123456, 1_000_000), 0x123456);
}

#[test]
fn apply_intensity_clamps_bright_channels() {
    // 255 * 2.0 = 510 clamps to 255 without carrying into green.
    assert_eq!(apply_intensity(0x0000FF, 2_000_000), 0x0000FF);
}

#[test]
fn apply_intensity_clamps_negative_to_black() {
    assert_eq!(apply_intensity(0xFFFFFF, -1), 0x000000);
}

#[test]
fn add_colors_saturates_per_channel() {
    assert_eq!(add_colors(0xFF0101, 0x02FF02), 0xFFFF03);
}

#[test]
fn add_colors_never_carries_between_channels() {
    // Green 255 + 1 stays 255; red stays clear.
    assert_eq!(add_colors(0x00FF00, 0x000100), 0x00FF00);
}

#[test]
fn point_light_vector_spans_to_the_light() {
    let l = Light::new_point(500_000, Point3D::new(1_000_000, 2_000_000, 3_000_000));
    let got = l.vector(Point3D::new(0, 0, 0));
    assert_eq!(got, Some((Vector3 { x: 1_000_000, y: 2_000_000, z: 3_000_000 }, 1_000_000)));
}

#[test]
fn directional_light_vector_is_unbounded_stand_in() {
    let d = Vector3 { x: 0, y: 1_000_000, z: 0 };
    let l = Light::new_directional(500_000, d);
    assert_eq!(l.vector(Point3D::new(7, 7, 7)), Some((d, 100_000_000)));
}

#[test]
fn ambient_light_has_no_vector() {
    let l = Light::new_ambient(200_000);
    assert_eq!(l.vector(Point3D::new(0, 0, 0)), None);
    assert_eq!(l.intensity(), 200_000);
}

#[test]
fn light_intensity_saturates() {
    assert_eq!(Light::new_ambient(-5).intensity(), 0);
    assert_eq!(Light::new_ambient(i64::MAX).intensity(), 1_000_000_000_000);
}

#[test]
fn single_ambient_light_is_returned_exactly() {
    // With one ambient light of intensity I and nothing else, lighting
    // is exactly I, for any point, normal and view direction.
    let mut scene = Scene::new();
    scene.add_light(Light::new_ambient(600_000));
    let p = Point3D::new(3, -4, 5);
    let n = Vector3 { x: 123, y: 456, z: -789 };
    let vv = Vector3 { x: -1, y: 2, z: 3 };
    assert_eq!(scene.compute_lighting(p, n, vv, 7), 600_000);
}

#[test]
fn head_on_point_light_gives_full_diffuse() {
    // Light straight along the normal: cos = 1, diffuse = intensity.
    let mut scene = Scene::new();
    scene.add_light(Light::new_point(500_000, Point3D::new(0, 0, -3_000_000)));
    let p = Point3D::new(0, 0, 0);
    let n = Vector3 { x: 0, y: 0, z: -1_000_000 };
    let vv = Vector3 { x: 0, y: 0, z: -1_000_000 };
    assert_eq!(scene.compute_lighting(p, n, vv, 0), 500_000);
}

#[test]
fn mirror_aligned_specular_adds_full_intensity() {
    // The reflected light direction lines up with the view direction:
    // the specular cosine is exactly 1, so any exponent keeps it 1 and
    // the specular part adds the full intensity on top of the diffuse.
    let mut scene = Scene::new();
    scene.add_light(Light::new_point(500_000, Point3D::new(0, 0, -3_000_000)));
    let p = Point3D::new(0, 0, 0);
    let n = Vector3 { x: 0, y: 0, z: -1_000_000 };
    let vv = Vector3 { x: 0, y: 0, z: -1_000_000 };
    assert_eq!(scene.compute_lighting(p, n, vv, 10), 1_000_000);
}

#[test]
fn occluded_point_light_contributes_nothing() {
    // A sphere sits squarely between the surface point and the light:
    // the shadow probe hits it and the light is skipped entirely.
    let mut scene = Scene::new();
    scene.add_light(Light::new_point(500_000, Point3D::new(0, 0, -3_000_000)));
    scene.add(Primitive::Sphere(Sphere::new(
        Point3D::new(0, 0, -1_500_000),
        500_000,
        0x000000,
        0,
        0,
    )));
    let p = Point3D::new(0, 0, 0);
    let n = Vector3 { x: 0, y: 0, z: -1_000_000 };
    let vv = Vector3 { x: 0, y: 0, z: -1_000_000 };
    assert_eq!(scene.compute_lighting(p, n, vv, 0), 0);
}

#[test]
fn unoccluded_twin_of_the_shadow_scene_is_lit() {
    // The identical geometry without the occluder has a positive
    // diffuse contribution.
    let mut scene = Scene::new();
    scene.add_light(Light::new_point(500_000, Point3D::new(0, 0, -3_000_000)));
    let p = Point3D::new(0, 0, 0);
    let n = Vector3 { x: 0, y: 0, z: -1_000_000 };
    let vv = Vector3 { x: 0, y: 0, z: -1_000_000 };
    assert!(scene.compute_lighting(p, n, vv, 0) > 0);
}

#[test]
fn reflect_ray_mirrors_about_the_normal() {
    // reflect((1,-1,0), n=(0,1,0)) = (-1,-1,0): same length, same angle
    // against the normal.
    let scene = Scene::new();
    let r = Vector3 { x: 1_000_000, y: -1_000_000, z: 0 };
    let n = Vector3 { x: 0, y: 1_000_000, z: 0 };
    let m = scene.reflect_ray(r, n);
    assert_eq!(m, Vector3 { x: -1_000_000, y: -1_000_000, z: 0 });
    assert_eq!(m.len(), r.len());
    assert_eq!(m.dot(n), r.dot(n));
}
