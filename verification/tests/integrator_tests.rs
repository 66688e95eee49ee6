use raytracer::integrator::{ray_color, Shading};
use raytracer::material::{Material, MaterialType};
use raytracer::ray::{Intersection, Ray};
use raytracer::scalar::Scalar;
use raytracer::sphere::{Geometry, Roots, Sphere, Surface};
use raytracer::vec3::Vec3;
use std::cell::Cell;

fn s(x: f32) -> Scalar {
    Scalar::from_bits(x.to_bits())
}

fn f(x: Scalar) -> f32 {
    f32::from_bits(x.to_bits())
}

fn v(x: f32, y: f32, z: f32) -> Vec3 {
    Vec3::new(s(x), s(y), s(z))
}

fn n(a: Vec3) -> [f32; 3] {
    [f(a.x), f(a.y), f(a.z)]
}

fn dot(a: [f32; 3], b: [f32; 3]) -> f32 {
    a[0] * b[0] + a[1] * b[1] + a[2] * b[2]
}

fn sphere(x: f32, y: f32, z: f32, radius: f32, kind: MaterialType) -> Sphere {
    Sphere::new(v(x, y, z), s(radius), Material::new(v(0.5, 0.25, 1.0), s(0.0), s(1.5), kind))
}

fn roots(sp: &Sphere, r: &Ray) -> Roots {
    let center = n(sp.center);
    let radius = f(sp.radius);
    let origin = n(r.origin);
    let direction = n(r.direction);
    let oc = [origin[0] - center[0], origin[1] - center[1], origin[2] - center[2]];
    let a = dot(direction, direction);
    let half_b = dot(oc, direction);
    let c = dot(oc, oc) - radius * radius;
    let discriminant = half_b * half_b - a * c;
    let sqrtd = f32::sqrt(discriminant);
    Roots::new(s(discriminant), s((-half_b - sqrtd) / a), s((-half_b + sqrtd) / a))
}

fn surface(sp: &Sphere, r: &Ray, root: Scalar) -> Surface {
    let center = n(sp.center);
    let radius = f(sp.radius);
    let origin = n(r.origin);
    let direction = n(r.direction);
    let t = f(root);
    let point = [
        origin[0] + direction[0] * t,
        origin[1] + direction[1] * t,
        origin[2] + direction[2] * t,
    ];
    let outward = [
        (point[0] - center[0]) / radius,
        (point[1] - center[1]) / radius,
        (point[2] - center[2]) / radius,
    ];
    Surface {
        point: v(point[0], point[1], point[2]),
        outward_normal: v(outward[0], outward[1], outward[2]),
        facing: s(dot(outward, direction)),
    }
}

/// Diffuse surfaces scatter straight along the normal, metals mirror, and
/// dielectrics absorb: enough to tell the paths apart.
fn scatter(r: &Ray, h: &Intersection) -> (bool, Vec3, Ray) {
    match h.material.material_type {
        MaterialType::Diffuse => h.material.lambertian_scatter(h, h.normal),
        MaterialType::Metal => (true, h.material.albedo, Ray::new(h.point, -r.direction)),
        MaterialType::Dielectric => (false, h.material.albedo, Ray::new(h.point, r.direction)),
    }
}

fn attenuate(a: Vec3, b: Vec3) -> Vec3 {
    v(f(a.x) * f(b.x), f(a.y) * f(b.y), f(a.z) * f(b.z))
}

fn background(r: &Ray) -> Vec3 {
    let d = n(r.direction);
    let length = f32::sqrt(dot(d, d));
    let t = 0.5 * (d[1] / length + 1.0);
    v((1.0 - t) * 1.0 + t * 0.5, (1.0 - t) * 1.0 + t * 0.7, (1.0 - t) * 1.0 + t * 1.0)
}

fn color(r: Ray, world: &Vec<Sphere>, depth: i32) -> Vec3 {
    ray_color(
        r,
        world,
        depth,
        &Geometry { roots, surface },
        &Shading { scatter, attenuate, background },
    )
}

fn scenes() -> Vec<Vec<Sphere>> {
    vec![
        vec![],
        vec![sphere(0.0, 0.0, 0.0, 1.0, MaterialType::Diffuse)],
        vec![
            sphere(0.0, -1000.0, 0.0, 999.0, MaterialType::Metal),
            sphere(4.0, 1.0, 0.0, 1.0, MaterialType::Dielectric),
            sphere(-4.0, 1.0, 0.0, 1.0, MaterialType::Diffuse),
        ],
    ]
}

#[test]
fn depth_zero_is_black() {
    let rays = [
        Ray::new(v(0.0, 0.0, 5.0), v(0.0, 0.0, -1.0)),
        Ray::new(v(0.0, 0.0, 5.0), v(0.0, 1.0, 0.0)),
        Ray::new(v(f32::NAN, 0.0, 0.0), v(0.0, 0.0, 0.0)),
    ];
    for world in &scenes() {
        for r in rays {
            for depth in [0, -1, i32::MIN] {
                let c = color(r, world, depth);
                assert_eq!(c.x.to_bits(), 0);
                assert_eq!(c.y.to_bits(), 0);
                assert_eq!(c.z.to_bits(), 0);
            }
        }
    }
}

#[test]
fn depth_zero_asks_for_nothing() {
    let calls = Cell::new(0u32);
    let world = scenes().pop().unwrap();
    let r = Ray::new(v(0.0, 0.0, 5.0), v(0.0, 0.0, -1.0));
    let c = ray_color(
        r,
        &world,
        0,
        &Geometry {
            roots: |sp: &Sphere, ray: &Ray| {
                calls.set(calls.get() + 1);
                roots(sp, ray)
            },
            surface: |sp: &Sphere, ray: &Ray, t: Scalar| {
                calls.set(calls.get() + 1);
                surface(sp, ray, t)
            },
        },
        &Shading {
            scatter: |ray: &Ray, h: &Intersection| {
                calls.set(calls.get() + 1);
                scatter(ray, h)
            },
            attenuate: |a: Vec3, b: Vec3| {
                calls.set(calls.get() + 1);
                attenuate(a, b)
            },
            background: |ray: &Ray| {
                calls.set(calls.get() + 1);
                background(ray)
            },
        },
    );
    assert_eq!(n(c), [0.0, 0.0, 0.0]);
    assert_eq!(calls.get(), 0);
}

#[test]
fn a_miss_is_the_background_whatever_the_scene() {
    let rays = [
        Ray::new(v(0.0, 5.0, 5.0), v(0.0, 1.0, 0.0)),
        Ray::new(v(0.0, 5.0, 5.0), v(0.3, 2.0, 0.5)),
        Ray::new(v(0.0, 5.0, 5.0), v(0.0, 0.5, 1.0)),
    ];
    for r in rays {
        let expected = background(&r);
        for world in &scenes() {
            for depth in [1, 2, 32] {
                let c = color(r, world, depth);
                assert_eq!(c.x.to_bits(), expected.x.to_bits());
                assert_eq!(c.y.to_bits(), expected.y.to_bits());
                assert_eq!(c.z.to_bits(), expected.z.to_bits());
            }
        }
    }
}

#[test]
fn background_straight_up_is_sky_blue() {
    let world: Vec<Sphere> = vec![];
    let r = Ray::new(v(0.0, 0.0, 0.0), v(0.0, 2.0, 0.0));
    let c = color(r, &world, 5);
    assert_eq!(n(c), [0.5, 0.7, 1.0]);
    let r = Ray::new(v(0.0, 0.0, 0.0), v(0.0, -2.0, 0.0));
    let c = color(r, &world, 5);
    assert_eq!(n(c), [1.0, 1.0, 1.0]);
}

#[test]
fn absorbed_light_is_black() {
    let world = vec![sphere(0.0, 0.0, 0.0, 1.0, MaterialType::Dielectric)];
    let r = Ray::new(v(0.0, 0.0, 5.0), v(0.0, 0.0, -1.0));
    let multiplied = Cell::new(0u32);
    let c = ray_color(
        r,
        &world,
        8,
        &Geometry { roots, surface },
        &Shading {
            scatter,
            attenuate: |a: Vec3, b: Vec3| {
                multiplied.set(multiplied.get() + 1);
                attenuate(a, b)
            },
            background,
        },
    );
    assert_eq!((c.x.to_bits(), c.y.to_bits(), c.z.to_bits()), (0, 0, 0));
    assert_eq!(multiplied.get(), 0);
}

#[test]
fn one_bounce_multiplies_the_albedo_into_the_sky() {
    let world = vec![sphere(0.0, 0.0, 0.0, 1.0, MaterialType::Diffuse)];
    let r = Ray::new(v(0.0, 5.0, 0.0), v(0.0, -1.0, 0.0));
    let c = color(r, &world, 8);
    assert_eq!(n(c), [0.5 * 0.5, 0.25 * 0.7, 1.0 * 1.0]);
}

#[test]
fn the_bounce_budget_ends_the_path_in_black() {
    let world = vec![sphere(0.0, 0.0, 0.0, 1.0, MaterialType::Diffuse)];
    let r = Ray::new(v(0.0, 5.0, 0.0), v(0.0, -1.0, 0.0));
    let c = color(r, &world, 1);
    assert_eq!(n(c), [0.0, 0.0, 0.0]);
    let c = color(r, &world, 2);
    assert_eq!(n(c), [0.25, 0.175, 1.0]);
}

/// Every ray that starts left of `x = 3` meets a surface where it starts.
fn always(_: &Sphere, ray: &Ray) -> Roots {
    if f(ray.origin.x) < 3.0 {
        Roots::new(s(1.0), s(1.0), s(1.0))
    } else {
        Roots::new(s(-1.0), s(1.0), s(1.0))
    }
}

fn here(_: &Sphere, ray: &Ray, _: Scalar) -> Surface {
    Surface { point: ray.origin, outward_normal: v(0.0, 1.0, 0.0), facing: s(-1.0) }
}

#[test]
fn a_path_counts_its_bounces() {
    let world = vec![sphere(0.0, 0.0, 0.0, 1.0, MaterialType::Diffuse)];
    let start = Ray::new(v(0.0, 0.0, 0.0), v(0.0, 1.0, 0.0));
    let onward = |ray: &Ray, h: &Intersection| {
        (true, v(0.5, 0.5, 0.5), Ray::new(v(f(h.point.x) + 1.0, 0.0, 0.0), ray.direction))
    };
    let white = |_: &Ray| v(1.0, 1.0, 1.0);
    let geometry = Geometry { roots: always, surface: here };
    let shading = Shading { scatter: onward, attenuate, background: white };
    for (depth, expected) in [(0, 0.0f32), (1, 0.0), (2, 0.0), (3, 0.0), (4, 0.125), (32, 0.125)] {
        let c = ray_color(start, &world, depth, &geometry, &shading);
        assert_eq!(n(c), [expected, expected, expected], "depth {depth}");
    }
}

#[test]
fn attenuations_multiply_from_the_far_end_of_the_path() {
    let world = vec![sphere(0.0, 0.0, 0.0, 1.0, MaterialType::Diffuse)];
    let start = Ray::new(v(0.0, 0.0, 0.0), v(0.0, 1.0, 0.0));
    let onward = |ray: &Ray, h: &Intersection| {
        let x = f(h.point.x);
        (true, v(x + 2.0, 0.0, 0.0), Ray::new(v(x + 1.0, 0.0, 0.0), ray.direction))
    };
    let joined = |a: Vec3, b: Vec3| v(f(a.x) * 10.0 + f(b.x), 0.0, 0.0);
    let sky = |_: &Ray| v(1.0, 0.0, 0.0);
    let geometry = Geometry { roots: always, surface: here };
    let shading = Shading { scatter: onward, attenuate: joined, background: sky };
    let c = ray_color(start, &world, 8, &geometry, &shading);
    assert_eq!(f(c.x), 20.0 + (30.0 + (40.0 + 1.0)));
}
