//! The scene: owns the primitives and lights, performs the
//! closest-intersection scan, shadow-aware lighting accumulation, and
//! bounded-depth recursive ray tracing with reflection blending.

use vstd::prelude::*;
use crate::fixed::{
    SCALE, COORD_LIMIT, fdiv, is_sqrt, clamp_range, clamp_coord_exec, pow_unit, pow_unit_exec,
    div_floor, lemma_fdiv_bounds,
};
use crate::math::{Point3D, Vector3, Ray, Vec3I, reflect_vec, lemma_axis_le_len};
use crate::light::{Light, INTENSITY_LIMIT};
use crate::primitive::Primitive;
use crate::color::{
    apply_intensity, apply_intensity_spec, add_colors, add_colors_spec, INTENSITY_ARG_LIMIT,
};

verus! {

/// Offset (0.001 in fixed point) that shadow and reflection rays start
/// past their surface point, to avoid self-intersection.
pub const EPSILON_T: i64 = 1_000;

/// The closest-intersection scan over the first `n` primitives: the
/// smallest hit parameter within `[min_t, max_t]`, strictly better than
/// anything seen before, together with the primitive that produced it.
/// With no hit the parameter stays `max_t` and the primitive is `None`.
pub open spec fn scan_hit(
    objects: Seq<Primitive>,
    o: Vec3I,
    d: Vec3I,
    min_t: int,
    max_t: int,
    n: nat,
) -> (int, Option<Primitive>)
    decreases n,
{
    if n == 0 {
        (max_t, None::<Primitive>)
    } else {
        let prev = scan_hit(objects, o, d, min_t, max_t, (n - 1) as nat);
        match objects[n - 1].hit(o, d) {
            Some(t) => if min_t <= t <= max_t && t < prev.0 {
                (t, Some(objects[n - 1]))
            } else {
                prev
            },
            None => prev,
        }
    }
}

/// The diffuse contribution of one light: `intensity * (n . l)` over the
/// product of the two lengths, when the surface faces the light.
pub open spec fn diffuse_term(intensity: int, n: Vec3I, l: Vec3I) -> int {
    let m = n.dot(l);
    if m > 0 {
        fdiv(intensity * m, n.len() * l.len())
    } else {
        0
    }
}

/// The specular contribution of one light: the cosine between the
/// reflected light direction and the view direction (clamped into
/// `[0, 1]`), raised to the specular exponent, times the intensity.
pub open spec fn specular_term(intensity: int, l: Vec3I, n: Vec3I, vv: Vec3I, s_exp: u32) -> int {
    let r = reflect_vec(l, n);
    let t = r.dot(vv);
    if t > 0 {
        let q = clamp_range(fdiv(t * SCALE, r.len() * vv.len()), 0, SCALE as int);
        fdiv(intensity * pow_unit(q, s_exp as nat), SCALE as int)
    } else {
        0
    }
}

/// The contribution of one non-ambient light with direction `l` and
/// shadow bound `t_max`: nothing at all when any primitive occludes the
/// segment toward the light, else diffuse plus (for a shiny surface)
/// specular.
pub open spec fn direct_light_term(
    objects: Seq<Primitive>,
    intensity: int,
    l: Vec3I,
    t_max: int,
    p: Vec3I,
    n: Vec3I,
    vv: Vec3I,
    s_exp: u32,
) -> int {
    let shadow = scan_hit(objects, p, l, EPSILON_T as int, t_max, objects.len());
    if shadow.1 is Some {
        0
    } else {
        diffuse_term(intensity, n, l) + if s_exp != 0 {
            specular_term(intensity, l, n, vv, s_exp)
        } else {
            0
        }
    }
}

/// The contribution of one light of any kind.
pub open spec fn light_term(
    objects: Seq<Primitive>,
    light: Light,
    p: Vec3I,
    n: Vec3I,
    vv: Vec3I,
    s_exp: u32,
) -> int {
    match light {
        Light::Ambient { intensity } => intensity as int,
        Light::Point { intensity, position } => direct_light_term(
            objects,
            intensity as int,
            position@.sub(p),
            SCALE as int,
            p,
            n,
            vv,
            s_exp,
        ),
        Light::Directional { intensity, direction } => direct_light_term(
            objects,
            intensity as int,
            direction@,
            100 * (SCALE as int),
            p,
            n,
            vv,
            s_exp,
        ),
    }
}

/// The summed intensity of the first `k` lights at surface point `p`
/// with normal `n`, view direction `vv` and specular exponent `s_exp`.
pub open spec fn lighting(
    objects: Seq<Primitive>,
    lights: Seq<Light>,
    p: Vec3I,
    n: Vec3I,
    vv: Vec3I,
    s_exp: u32,
    k: nat,
) -> int
    decreases k,
{
    if k == 0 {
        0
    } else {
        lighting(objects, lights, p, n, vv, s_exp, (k - 1) as nat) + light_term(
            objects,
            lights[k - 1],
            p,
            n,
            vv,
            s_exp,
        )
    }
}

/// The color traced for the ray from `o` along `d` within
/// `[min_t, max_t]`, recursing through at most `depth` mirror bounces.
/// A miss yields the background; a hit yields the locally shaded color,
/// blended — when the surface is reflective and depth remains — with the
/// color traced along the reflected ray.
pub open spec fn trace(
    objects: Seq<Primitive>,
    lights: Seq<Light>,
    background: u32,
    o: Vec3I,
    d: Vec3I,
    min_t: int,
    max_t: int,
    depth: nat,
) -> int
    decreases depth,
{
    let scan = scan_hit(objects, o, d, min_t, max_t, objects.len());
    match scan.1 {
        None => background as int,
        Some(obj) => {
            let p = o.add(d.scale(scan.0));
            let n = p.sub(obj.origin_spec()@).unit();
            let local = apply_intensity_spec(
                obj.color_spec() as int,
                lighting(objects, lights, p, n, d.neg(), obj.specular_spec(), lights.len()),
            );
            if depth == 0 || obj.reflective_spec() <= 0 {
                local
            } else {
                let r = reflect_vec(d.neg(), n);
                let reflected = trace(
                    objects,
                    lights,
                    background,
                    p,
                    r,
                    EPSILON_T as int,
                    max_t,
                    (depth - 1) as nat,
                );
                add_colors_spec(
                    apply_intensity_spec(local, (SCALE as int) - obj.reflective_spec()),
                    apply_intensity_spec(reflected, obj.reflective_spec() as int),
                )
            }
        },
    }
}

/// The viewport extents (fixed point) that the canvas maps onto.
#[derive(Clone, Copy, PartialEq, Eq, Structural, Debug)]
pub struct Viewport {
    pub width: i64,
    pub height: i64,
}

/// A scene: camera origin, primitives, lights and a background color.
/// Primitives and lights are added during setup and only read while
/// tracing.
pub struct Scene {
    pub origin: Point3D,
    pub objects: Vec<Primitive>,
    pub lights: Vec<Light>,
    pub background_color: u32,
}

impl Scene {
    /// Every owned primitive and light is well-formed and the camera
    /// origin lies in the coordinate band.
    pub open spec fn wf(self) -> bool {
        &&& self.origin@.in_range()
        &&& forall|i: int| 0 <= i < self.objects@.len() ==> (#[trigger] self.objects@[i]).wf()
        &&& forall|i: int| 0 <= i < self.lights@.len() ==> (#[trigger] self.lights@[i]).wf()
    }

    /// An empty scene with the camera at the origin and a near-black
    /// background.
    pub fn new() -> (r: Scene)
        ensures
            r.wf(),
            r.origin@ == (Vec3I { x: 0, y: 0, z: 0 }),
            r.objects@.len() == 0,
            r.lights@.len() == 0,
            r.background_color == 0x101010,
    {
        Scene {
            origin: Point3D { x: 0, y: 0, z: 0 },
            objects: Vec::new(),
            lights: Vec::new(),
            background_color: 0x101010,
        }
    }

    /// Add a primitive (setup phase).
    pub fn add(&mut self, object: Primitive)
        requires
            old(self).wf(),
            object.wf(),
        ensures
            final(self).wf(),
            final(self).objects@ == old(self).objects@.push(object),
            final(self).lights == old(self).lights,
            final(self).origin == old(self).origin,
            final(self).background_color == old(self).background_color,
    {
        self.objects.push(object);
    }

    /// Add a light (setup phase).
    pub fn add_light(&mut self, light: Light)
        requires
            old(self).wf(),
            light.wf(),
        ensures
            final(self).wf(),
            final(self).lights@ == old(self).lights@.push(light),
            final(self).objects == old(self).objects,
            final(self).origin == old(self).origin,
            final(self).background_color == old(self).background_color,
    {
        self.lights.push(light);
    }

    /// Reflect `r` about the axis `n`: `2 (n . r) n - r` in fixed point.
    pub fn reflect_ray(&self, r: Vector3, n: Vector3) -> (res: Vector3)
        requires
            r@.in_range(),
            n@.in_range(),
        ensures
            res@ == reflect_vec(r@, n@),
            res@.in_range(),
    {
        let d = n.dot(r);
        let dd: i64 = 2 * d;
        proof {
            let lim2 = 6 * (COORD_LIMIT as int) * (COORD_LIMIT as int);
            assert(-lim2 * (COORD_LIMIT as int) <= dd * n@.x <= lim2 * (
            COORD_LIMIT as int) && -lim2 * (COORD_LIMIT as int) <= dd
                * n@.y <= lim2 * (COORD_LIMIT as int) && -lim2 * (
            COORD_LIMIT as int) <= dd * n@.z <= lim2 * (COORD_LIMIT
                as int)) by (nonlinear_arith)
                requires
                    -lim2 <= dd <= lim2,
                    -COORD_LIMIT <= n@.x <= COORD_LIMIT,
                    -COORD_LIMIT <= n@.y <= COORD_LIMIT,
                    -COORD_LIMIT <= n@.z <= COORD_LIMIT,
                    lim2 >= 0,
            ;
        }
        let sx = div_floor(dd as i128 * n.x as i128, SCALE as i128 * SCALE as i128);
        let sy = div_floor(dd as i128 * n.y as i128, SCALE as i128 * SCALE as i128);
        let sz = div_floor(dd as i128 * n.z as i128, SCALE as i128 * SCALE as i128);
        proof {
            lemma_fdiv_bounds(
                (dd as int) * n@.x,
                (SCALE as int) * (SCALE as int),
                2_000_000_000_000_000,
            );
            lemma_fdiv_bounds(
                (dd as int) * n@.y,
                (SCALE as int) * (SCALE as int),
                2_000_000_000_000_000,
            );
            lemma_fdiv_bounds(
                (dd as int) * n@.z,
                (SCALE as int) * (SCALE as int),
                2_000_000_000_000_000,
            );
        }
        Vector3 {
            x: clamp_coord_exec(sx - r.x as i128),
            y: clamp_coord_exec(sy - r.y as i128),
            z: clamp_coord_exec(sz - r.z as i128),
        }
    }

    /// Scan all primitives for the smallest hit parameter within
    /// `[min_t, max_t]`, returning the parameter (or `max_t` with no
    /// hit), the constructed ray for reuse, and the hit primitive.
    pub fn closest_intersection(&self, o: Point3D, d: Vector3, min_t: i64, max_t: i64) -> (r: (
        i64,
        Ray,
        Option<Primitive>,
    ))
        requires
            self.wf(),
            o@.in_range(),
            d@.in_range(),
        ensures
            ({
                let scan = scan_hit(
                    self.objects@,
                    o@,
                    d@,
                    min_t as int,
                    max_t as int,
                    self.objects@.len(),
                );
                r.0 == scan.0 && r.2 == scan.1
            }),
            r.1.origin == o,
            r.1.direction == d,
            r.2 matches Some(obj) ==> obj.wf(),
    {
        let ray = Ray { origin: o, direction: d };
        let mut closest_t: i64 = max_t;
        let mut closest_object: Option<Primitive> = None;
        let mut idx: usize = 0;
        while idx < self.objects.len()
            invariant
                self.wf(),
                o@.in_range(),
                d@.in_range(),
                ray.origin == o,
                ray.direction == d,
                idx <= self.objects.len(),
                (closest_t as int, closest_object) == scan_hit(
                    self.objects@,
                    o@,
                    d@,
                    min_t as int,
                    max_t as int,
                    idx as nat,
                ),
                closest_object matches Some(obj) ==> obj.wf(),
            decreases self.objects.len() - idx,
        {
            let object = self.objects[idx];
            let t = object.intersect(&ray);
            match t {
                Some(t) => {
                    if min_t as i128 <= t && t <= max_t as i128 && t < closest_t as i128 {
                        closest_t = t as i64;
                        closest_object = Some(object);
                    }
                },
                None => {},
            }
            idx = idx + 1;
        }
        (closest_t, ray, closest_object)
    }

    /// The contribution of one non-ambient light reaching `p` along `l`.
    fn direct_light_contribution(
        &self,
        intensity: i64,
        l: Vector3,
        t_max: i64,
        p: Point3D,
        n: Vector3,
        vv: Vector3,
        s: u32,
    ) -> (r: i128)
        requires
            self.wf(),
            0 <= intensity <= INTENSITY_LIMIT,
            l@.in_range(),
            p@.in_range(),
            n@.in_range(),
            vv@.in_range(),
        ensures
            r == direct_light_term(
                self.objects@,
                intensity as int,
                l@,
                t_max as int,
                p@,
                n@,
                vv@,
                s,
            ),
            0 <= r <= 4 * (INTENSITY_LIMIT as int),
    {
        let shadow = self.closest_intersection(p, l, EPSILON_T, t_max);
        match shadow.2 {
            Some(_) => 0,
            None => {
                let mut acc: i128 = 0;
                let m = n.dot(l);
                if m > 0 {
                    let nl = n.len();
                    let ll = l.len();
                    proof {
                        lemma_nonzero_len(n@, m as int, l@);
                        lemma_axis_le_len(n@);
                        lemma_axis_le_len(l@);
                        lemma_diffuse_bounds(
                            intensity as int,
                            m as int,
                            n@,
                            l@,
                            nl as int,
                            ll as int,
                        );
                    }
                    let den: i128 = nl as i128 * ll as i128;
                    let diffuse = div_floor(intensity as i128 * m as i128, den);
                    proof {
                        lemma_fdiv_bounds(
                            (intensity as int) * (m as int),
                            den as int,
                            3 * (intensity as int),
                        );
                        vstd::arithmetic::div_mod::lemma_div_pos_is_pos(
                            (intensity as int) * (m as int),
                            den as int,
                        );
                    }
                    acc = diffuse;
                }
                if s != 0 {
                    let rv = self.reflect_ray(l, n);
                    let t = rv.dot(vv);
                    if t > 0 {
                        let rl = rv.len();
                        let vl = vv.len();
                        proof {
                            lemma_nonzero_len(rv@, t as int, vv@);
                            assert(1 <= (rl as int) * (vl as int)
                                <= 1_000_000_000_000_000_000) by (nonlinear_arith)
                                requires
                                    1 <= rl <= 1_000_000_000,
                                    1 <= vl <= 1_000_000_000,
                            ;
                        }
                        let den2: i128 = rl as i128 * vl as i128;
                        let q_raw = div_floor(t as i128 * SCALE as i128, den2);
                        let q: i64 = if q_raw < 0 {
                            0
                        } else if q_raw > SCALE as i128 {
                            SCALE
                        } else {
                            q_raw as i64
                        };
                        let pw = pow_unit_exec(q, s);
                        proof {
                            assert(0 <= (intensity as int) * (pw as int) <= (intensity as int) * (
                            SCALE as int)) by (nonlinear_arith)
                                requires
                                    0 <= intensity,
                                    0 <= pw <= SCALE,
                            ;
                        }
                        let spec_part = div_floor(intensity as i128 * pw as i128, SCALE as i128);
                        proof {
                            lemma_fdiv_bounds(
                                (intensity as int) * (pw as int),
                                SCALE as int,
                                intensity as int,
                            );
                            vstd::arithmetic::div_mod::lemma_div_pos_is_pos(
                                (intensity as int) * (pw as int),
                                SCALE as int,
                            );
                        }
                        acc = acc + spec_part;
                    }
                }
                acc
            },
        }
    }

    /// The summed intensity that all lights deliver to the surface point
    /// `p` with normal `n`, view direction `vv` and specular exponent
    /// `s` — ambient lights unconditionally, the others only when no
    /// primitive occludes them, with diffuse and specular parts.
    pub fn compute_lighting(&self, p: Point3D, n: Vector3, vv: Vector3, s: u32) -> (r: i128)
        requires
            self.wf(),
            p@.in_range(),
            n@.in_range(),
            vv@.in_range(),
        ensures
            r == lighting(self.objects@, self.lights@, p@, n@, vv@, s, self.lights@.len()),
            0 <= r <= 4_000_000_000_000 * self.lights@.len(),
    {
        let mut i: i128 = 0;
        let mut idx: usize = 0;
        while idx < self.lights.len()
            invariant
                self.wf(),
                p@.in_range(),
                n@.in_range(),
                vv@.in_range(),
                idx <= self.lights.len(),
                i == lighting(self.objects@, self.lights@, p@, n@, vv@, s, idx as nat),
                0 <= i <= 4_000_000_000_000 * idx,
            decreases self.lights.len() - idx,
        {
            let light = self.lights[idx];
            match light {
                Light::Ambient { intensity } => {
                    i = i + intensity as i128;
                },
                _ => {
                    let lv = light.vector(p);
                    match lv {
                        Some((l, t_max)) => {
                            let c = self.direct_light_contribution(
                                light.intensity(),
                                l,
                                t_max,
                                p,
                                n,
                                vv,
                                s,
                            );
                            i = i + c;
                        },
                        None => {},
                    }
                },
            }
            idx = idx + 1;
        }
        i
    }

    /// Trace the ray from `o` along `d`, recursing through at most
    /// `depth` mirror bounces, and return the resolved packed color.
    pub fn trace_ray(&self, o: Point3D, d: Vector3, min_t: i64, max_t: i64, depth: usize) -> (r:
        u32)
        requires
            self.wf(),
            o@.in_range(),
            d@.in_range(),
        ensures
            r == trace(
                self.objects@,
                self.lights@,
                self.background_color,
                o@,
                d@,
                min_t as int,
                max_t as int,
                depth as nat,
            ),
        decreases depth,
    {
        let (closest_t, ray, closest_object) = self.closest_intersection(o, d, min_t, max_t);
        match closest_object {
            None => self.background_color,
            Some(object) => {
                let p = o.add(ray.direction.mul(closest_t));
                let n = p.sub(object.get_origin()).normalize();
                let light_sum = self.compute_lighting(p, n, d.neg(), object.specular());
                proof {
                    vstd::std_specs::vec::axiom_spec_len(&self.lights);
                    assert(self.lights@.len() <= usize::MAX);
                    assert(4_000_000_000_000 * self.lights@.len() <= INTENSITY_ARG_LIMIT);
                }
                let local_color = apply_intensity(object.color(), light_sum);
                let reflectivity = object.reflective();
                if depth == 0 || reflectivity <= 0 {
                    return local_color;
                }
                let rv = self.reflect_ray(ray.direction.neg(), n);
                let reflected_color = self.trace_ray(p, rv, EPSILON_T, max_t, depth - 1);
                add_colors(
                    apply_intensity(local_color, (SCALE - reflectivity) as i128),
                    apply_intensity(reflected_color, reflectivity as i128),
                )
            },
        }
    }
}

/// With one ambient light of intensity `intensity` and no other lights,
/// the computed lighting is exactly that intensity, whatever the point,
/// normal, view direction or specular exponent — and whatever primitives
/// the scene holds.
pub proof fn lemma_single_ambient_light(
    objects: Seq<Primitive>,
    intensity: i64,
    p: Vec3I,
    n: Vec3I,
    vv: Vec3I,
    s_exp: u32,
)
    ensures
        lighting(
            objects,
            seq![Light::Ambient { intensity }],
            p,
            n,
            vv,
            s_exp,
            1,
        ) == intensity,
{
    let lights = seq![Light::Ambient { intensity }];
    assert(lighting(objects, lights, p, n, vv, s_exp, 0) == 0);
    assert(lights[0] == Light::Ambient { intensity });
}

/// With no depth left, a hit yields exactly the locally shaded color:
/// the reflection term contributes nothing at depth 0, whatever the
/// surface's reflectivity.
pub proof fn lemma_depth_zero_is_local(
    objects: Seq<Primitive>,
    lights: Seq<Light>,
    background: u32,
    o: Vec3I,
    d: Vec3I,
    min_t: int,
    max_t: int,
)
    requires
        scan_hit(objects, o, d, min_t, max_t, objects.len()).1 is Some,
    ensures
        ({
            let scan = scan_hit(objects, o, d, min_t, max_t, objects.len());
            let obj = scan.1->Some_0;
            let p = o.add(d.scale(scan.0));
            let n = p.sub(obj.origin_spec()@).unit();
            trace(objects, lights, background, o, d, min_t, max_t, 0) == apply_intensity_spec(
                obj.color_spec() as int,
                lighting(objects, lights, p, n, d.neg(), obj.specular_spec(), lights.len()),
            )
        }),
{
}

/// A light whose shadow probe hits any primitive in range contributes
/// nothing at all: neither a diffuse nor a specular part.
pub proof fn lemma_occluded_light_contributes_nothing(
    objects: Seq<Primitive>,
    intensity: int,
    l: Vec3I,
    t_max: int,
    p: Vec3I,
    n: Vec3I,
    vv: Vec3I,
    s_exp: u32,
)
    requires
        scan_hit(objects, p, l, EPSILON_T as int, t_max, objects.len()).1 is Some,
    ensures
        direct_light_term(objects, intensity, l, t_max, p, n, vv, s_exp) == 0,
{
}

/// An unoccluded light whose diffuse numerator reaches the product of
/// the lengths contributes a positive diffuse term — and nothing the
/// specular part could subtract: the whole contribution is positive.
pub proof fn lemma_unoccluded_light_contributes(
    objects: Seq<Primitive>,
    intensity: int,
    l: Vec3I,
    t_max: int,
    p: Vec3I,
    n: Vec3I,
    vv: Vec3I,
    s_exp: u32,
)
    requires
        scan_hit(objects, p, l, EPSILON_T as int, t_max, objects.len()).1 is None,
        0 <= intensity,
        n.dot(l) > 0,
        0 < n.len() * l.len() <= intensity * n.dot(l),
    ensures
        diffuse_term(intensity, n, l) >= 1,
        direct_light_term(objects, intensity, l, t_max, p, n, vv, s_exp) >= 1,
{
    let m = n.dot(l);
    let den = n.len() * l.len();
    vstd::arithmetic::div_mod::lemma_div_is_ordered(den, intensity * m, den);
    vstd::arithmetic::div_mod::lemma_div_by_self(den);
    assert(fdiv(intensity * m, den) >= 1);
    if s_exp != 0 {
        let r = reflect_vec(l, n);
        let t = r.dot(vv);
        if t > 0 {
            let q = clamp_range(fdiv(t * SCALE, r.len() * vv.len()), 0, SCALE as int);
            crate::fixed::lemma_pow_unit_bounds(q, s_exp as nat);
            assert(0 <= intensity * pow_unit(q, s_exp as nat)) by (nonlinear_arith)
                requires
                    0 <= intensity,
                    0 <= pow_unit(q, s_exp as nat),
            ;
            vstd::arithmetic::div_mod::lemma_div_pos_is_pos(
                intensity * pow_unit(q, s_exp as nat),
                SCALE as int,
            );
        }
    }
}

/// A strictly positive dot product means both vectors are nonzero, so
/// both lengths are at least one.
proof fn lemma_nonzero_len(n: Vec3I, m: int, l: Vec3I)
    requires
        m == n.dot(l),
        m > 0,
        is_sqrt(n.norm2(), n.len()),
        is_sqrt(l.norm2(), l.len()),
    ensures
        1 <= n.len(),
        1 <= l.len(),
{
    assert(n.norm2() >= 1 && l.norm2() >= 1) by (nonlinear_arith)
        requires
            n.x * l.x + n.y * l.y + n.z * l.z > 0,
            n.norm2() == n.x * n.x + n.y * n.y + n.z * n.z,
            l.norm2() == l.x * l.x + l.y * l.y + l.z * l.z,
    ;
    assert(n.len() >= 1) by (nonlinear_arith)
        requires
            is_sqrt(n.norm2(), n.len()),
            n.norm2() >= 1,
    ;
    assert(l.len() >= 1) by (nonlinear_arith)
        requires
            is_sqrt(l.norm2(), l.len()),
            l.norm2() >= 1,
    ;
}

/// The diffuse numerator is bounded by three times the intensity times
/// the product of the lengths, which bounds the quotient by `3 *
/// intensity`.
proof fn lemma_diffuse_bounds(intensity: int, m: int, n: Vec3I, l: Vec3I, nl: int, ll: int)
    requires
        0 <= intensity <= INTENSITY_LIMIT,
        m == n.dot(l),
        nl == n.len(),
        ll == l.len(),
        1 <= nl <= 1_000_000_000,
        1 <= ll <= 1_000_000_000,
        -nl <= n.x <= nl,
        -nl <= n.y <= nl,
        -nl <= n.z <= nl,
        -ll <= l.x <= ll,
        -ll <= l.y <= ll,
        -ll <= l.z <= ll,
    ensures
        1 <= nl * ll <= 1_000_000_000_000_000_000,
        m <= 3 * (nl * ll),
        -((3 * intensity) * (nl * ll)) <= intensity * m <= (3 * intensity) * (nl * ll),
        -4_000_000_000_000_000_000_000_000_000_000 <= intensity * m
            <= 4_000_000_000_000_000_000_000_000_000_000,
{
    assert(1 <= nl * ll <= 1_000_000_000_000_000_000 && n.x * l.x <= nl * ll && n.y * l.y <= nl
        * ll && n.z * l.z <= nl * ll && -(nl * ll) <= n.x * l.x && -(nl * ll) <= n.y * l.y && -(
    nl * ll) <= n.z * l.z) by (nonlinear_arith)
        requires
            1 <= nl <= 1_000_000_000,
            1 <= ll <= 1_000_000_000,
            -nl <= n.x <= nl,
            -nl <= n.y <= nl,
            -nl <= n.z <= nl,
            -ll <= l.x <= ll,
            -ll <= l.y <= ll,
            -ll <= l.z <= ll,
    ;
    assert(-((3 * intensity) * (nl * ll)) <= intensity * m <= (3 * intensity) * (nl * ll) && -4_000_000_000_000_000_000_000_000_000_000
        <= intensity * m <= 4_000_000_000_000_000_000_000_000_000_000) by (nonlinear_arith)
        requires
            0 <= intensity <= INTENSITY_LIMIT,
            -(3 * (nl * ll)) <= m <= 3 * (nl * ll),
            1 <= nl * ll <= 1_000_000_000_000_000_000,
    ;
}

}
