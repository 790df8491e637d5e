//! Scene traversal: closest intersection, recursive tracing, blending,
//! and the canvas.

use phosphorust::canvas::Canvas;
use phosphorust::light::Light;
use phosphorust::math::{Point3D, Vector3};
use phosphorust::primitive::{Primitive, Sphere};
use phosphorust::scene::{Scene, Viewport};

fn forward() -> Vector3 {
    Vector3 { x: 0, y: 0, z: 1_000_000 }
}

fn demo_sphere(z: i64, color: u32, reflective: i64) -> Primitive {
    Primitive::Sphere(Sphere::new(Point3D::new(0, 0, z), 1_000_000, color, 0, reflective))
}

#[test]
fn empty_scene_traces_background() {
    let scene = Scene::new();
    assert_eq!(scene.background_color, 0x101010);
    let c = scene.trace_ray(Point3D::new(0, 0, 0), forward(), 1_000, 100_000_000, 3);
    assert_eq!(c, 0x101010);
}

#[test]
fn closest_intersection_picks_the_nearer_sphere() {
    let mut scene = Scene::new();
    scene.add(demo_sphere(3_000_000, 0xFF0000, 0));
    scene.add(demo_sphere(5_000_000, 0x0000FF, 0));
    let (t, _ray, obj) = scene.closest_intersection(
        Point3D::new(0, 0, 0),
        forward(),
        1_000,
        100_000_000,
    );
    assert_eq!(t, 2_000_000);
    assert_eq!(obj.unwrap().color(), 0xFF0000);
}

#[test]
fn closest_intersection_respects_the_window() {
    let mut scene = Scene::new();
    scene.add(demo_sphere(3_000_000, 0xFF0000, 0));
    scene.add(demo_sphere(5_000_000, 0x0000FF, 0));
    // The nearer hit (t = 2) falls below min_t, so the farther one wins.
    let (t, _ray, obj) = scene.closest_intersection(
        Point3D::new(0, 0, 0),
        forward(),
        3_000_000,
        100_000_000,
    );
    assert_eq!(t, 4_000_000);
    assert_eq!(obj.unwrap().color(), 0x0000FF);
    // Nothing within a tiny window: the parameter stays at max_t.
    let (t2, _ray2, obj2) = scene.closest_intersection(
        Point3D::new(0, 0, 0),
        forward(),
        1_000,
        1_000_000,
    );
    assert_eq!(t2, 1_000_000);
    assert!(obj2.is_none());
}

#[test]
fn depth_zero_returns_local_color_only() {
    // A fully reflective sphere at depth 0 still shades locally:
    // ambient 0.5 on pure red gives half red, nothing blended in.
    let mut scene = Scene::new();
    scene.add(demo_sphere(3_000_000, 0xFF0000, 1_000_000));
    scene.add_light(Light::new_ambient(500_000));
    let c = scene.trace_ray(Point3D::new(0, 0, 0), forward(), 1_000, 100_000_000, 0);
    assert_eq!(c, 0x7F0000);
}

#[test]
fn fully_reflective_sphere_mirrors_the_background() {
    // With one bounce the fully reflective sphere throws the ray back
    // toward the camera, which escapes to the background; the local
    // part is weighted by 1 - 1 = 0.
    let mut scene = Scene::new();
    scene.add(demo_sphere(3_000_000, 0xFF0000, 1_000_000));
    scene.add_light(Light::new_ambient(500_000));
    let c = scene.trace_ray(Point3D::new(0, 0, 0), forward(), 1_000, 100_000_000, 1);
    assert_eq!(c, 0x101010);
}

#[test]
fn half_reflective_sphere_blends_both_parts() {
    // local = 0x7F0000 weighted 0.5 -> 0x3F0000; background 0x101010
    // weighted 0.5 -> 0x080808; blended 0x470808.
    let mut scene = Scene::new();
    scene.add(demo_sphere(3_000_000, 0xFF0000, 500_000));
    scene.add_light(Light::new_ambient(500_000));
    let c = scene.trace_ray(Point3D::new(0, 0, 0), forward(), 1_000, 100_000_000, 1);
    assert_eq!(c, 0x470808);
}

#[test]
fn matte_sphere_ignores_depth() {
    let mut scene = Scene::new();
    scene.add(demo_sphere(3_000_000, 0xFF0000, 0));
    scene.add_light(Light::new_ambient(500_000));
    let deep = scene.trace_ray(Point3D::new(0, 0, 0), forward(), 1_000, 100_000_000, 5);
    let shallow = scene.trace_ray(Point3D::new(0, 0, 0), forward(), 1_000, 100_000_000, 0);
    assert_eq!(deep, shallow);
}

#[test]
fn scene_setup_accumulates_objects_and_lights() {
    let mut scene = Scene::new();
    assert_eq!(scene.objects.len(), 0);
    assert_eq!(scene.lights.len(), 0);
    scene.add(demo_sphere(3_000_000, 0xFF0000, 0));
    scene.add_light(Light::new_ambient(100_000));
    scene.add_light(Light::new_point(400_000, Point3D::new(0, 1_000_000, 0)));
    assert_eq!(scene.objects.len(), 1);
    assert_eq!(scene.lights.len(), 2);
    let vp = Viewport { width: 1_000_000, height: 1_000_000 };
    assert_eq!(vp.width, vp.height);
}

#[test]
fn canvas_starts_black_with_full_buffer() {
    let canvas = Canvas::new(8, 4);
    assert_eq!(canvas.buffer.len(), 32);
    assert!(canvas.buffer.iter().all(|&px| px == 0));
}

#[test]
fn put_pixel_maps_centered_coordinates() {
    // index = width * (height/2 - y - 1) + (width/2 + x).
    let mut canvas = Canvas::new(4, 4);
    canvas.put_pixel(0, 0, 0xABCDEF);
    assert_eq!(canvas.buffer[6], 0xABCDEF);
    canvas.put_pixel(-2, 1, 0x123456);
    assert_eq!(canvas.buffer[0], 0x123456);
    canvas.put_pixel(1, -2, 0x654321);
    assert_eq!(canvas.buffer[15], 0x654321);
}
