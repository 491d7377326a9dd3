//! End-to-end checks of the tracing pipeline on exact fixed-point values;
//! one unit is 65536.

use rust_tracer::camera::Camera;
use rust_tracer::fixed::FX_ONE;
use rust_tracer::hittables::{HitRecord, HittableList, Sphere};
use rust_tracer::image::Image;
use rust_tracer::materials::{Dielectric, Lambertian, Metal};
use rust_tracer::math::{Ray, Vector3};
use rust_tracer::utils::{clamp, random_in_unit_disk, random_in_unit_sphere, random_unit_vector};
use rust_tracer::{ray_color, render, split_samples};

const S: i64 = 65536;

fn gray() -> rust_tracer::materials::Material {
    Lambertian::new(Vector3(32768, 32768, 32768))
}

#[test]
fn sphere_hit_head_on() {
    // a unit sphere at the origin, a ray aimed at its center from z = -3:
    // the hit is at t = 2 and the hit point sits at distance 1 (the
    // radius) from the center, exactly
    let sphere = Sphere::new(Vector3(0, 0, 0), S, gray());
    let ray = Ray::new(Vector3(0, 0, -3 * S), Vector3(0, 0, S));
    let rec = sphere.hit(ray, 64, 549755813888).expect("head-on ray must hit");
    assert_eq!(rec.t, 2 * S);
    assert_eq!(rec.point, Vector3(0, 0, -S));
    assert_eq!(rec.point.sub(Vector3(0, 0, 0)).length(), S);
    assert!(rec.front_face);
    assert_eq!(rec.normal, Vector3(0, 0, -S));
}

#[test]
fn sphere_miss_when_outside_and_receding() {
    // origin ten units from the center, direction pointing away: no hit
    let sphere = Sphere::new(Vector3(0, 0, -10 * S), S, gray());
    let ray = Ray::new(Vector3(0, 0, 0), Vector3(0, 0, S));
    assert!(sphere.hit(ray, 64, 549755813888).is_none());
}

#[test]
fn sphere_hit_toward_center_is_front_face() {
    // aimed straight at the center from outside: the reported normal is
    // parallel to (hit point - center) and the hit is front-facing
    let sphere = Sphere::new(Vector3(0, 0, -3 * S), S, gray());
    let ray = Ray::new(Vector3(0, 0, 0), Vector3(0, 0, -S));
    let rec = sphere.hit(ray, 64, 549755813888).expect("must hit");
    assert!(rec.front_face);
    assert_eq!(rec.point, Vector3(0, 0, -2 * S));
    // point - center = (0, 0, 1): the normal points the same way
    assert_eq!(rec.normal, Vector3(0, 0, S));
}

#[test]
fn sphere_negative_radius_flips_normal() {
    let sphere = Sphere::new(Vector3(0, 0, -3 * S), -S, gray());
    let ray = Ray::new(Vector3(0, 0, 0), Vector3(0, 0, -S));
    let rec = sphere.hit(ray, 64, 549755813888).expect("must hit");
    assert_eq!(rec.t, 2 * S);
    assert!(!rec.front_face);
    assert_eq!(rec.normal, Vector3(0, 0, S));
}

#[test]
fn list_hit_returns_the_closest() {
    let near = Lambertian::new(Vector3(S, 0, 0));
    let far = Lambertian::new(Vector3(0, S, 0));
    let mut world = HittableList::new();
    world.add(Sphere::new(Vector3(0, 0, -5 * S), S, far));
    world.add(Sphere::new(Vector3(0, 0, -3 * S), S, near));
    let ray = Ray::new(Vector3(0, 0, 0), Vector3(0, 0, -S));
    let rec = world.hit(ray, 64, 549755813888).expect("must hit");
    assert_eq!(rec.t, 2 * S);
    assert_eq!(rec.material, near);

    // same scene, nearer sphere added first: still the closest wins
    let mut world2 = HittableList::new();
    world2.add(Sphere::new(Vector3(0, 0, -3 * S), S, near));
    world2.add(Sphere::new(Vector3(0, 0, -5 * S), S, far));
    let rec2 = world2.hit(ray, 64, 549755813888).expect("must hit");
    assert_eq!(rec2.t, 2 * S);
    assert_eq!(rec2.material, near);
}

#[test]
fn list_hit_empty_scene_is_none() {
    let world = HittableList::new();
    let ray = Ray::new(Vector3(0, 0, 0), Vector3(0, 0, -S));
    assert!(world.hit(ray, 64, 549755813888).is_none());
}

#[test]
fn ray_color_depth_zero_is_black() {
    let mut world = HittableList::new();
    world.add(Sphere::new(Vector3(0, 0, -3 * S), S, gray()));
    let ray = Ray::new(Vector3(0, 0, 0), Vector3(0, 0, -S));
    assert_eq!(ray_color(ray, &world, 0), Vector3(0, 0, 0));
}

#[test]
fn ray_color_empty_scene_is_the_gradient() {
    let world = HittableList::new();
    // straight up: fully sky blue
    let up = Ray::new(Vector3(0, 0, 0), Vector3(0, S, 0));
    assert_eq!(ray_color(up, &world, 50), Vector3(32768, 45875, 65536));
    // horizontal: the midpoint of white and sky blue
    let level = Ray::new(Vector3(0, 0, 0), Vector3(S, 0, 0));
    assert_eq!(ray_color(level, &world, 50), Vector3(49152, 55705, 65536));
    // the gradient does not depend on the depth budget, only on the ray
    assert_eq!(ray_color(up, &world, 1), Vector3(32768, 45875, 65536));
}

#[test]
fn metal_mirror_reflection_head_on() {
    // fuzz 0: a ray straight into the surface reflects straight back
    let albedo = Vector3(S, 32768, 16384);
    let metal = Metal::new(albedo, 0);
    let rec = HitRecord::new(Vector3(0, 0, -S), Vector3(0, 0, S), S, true, metal);
    let ray = Ray::new(Vector3(0, 0, 0), Vector3(0, 0, -S));
    let any = Vector3(0, 0, S);
    let (attenuation, scattered) = metal
        .scatter_with(ray, &rec, any, any, 17)
        .expect("head-on metal bounce scatters");
    assert_eq!(attenuation, albedo);
    assert_eq!(scattered.origin, rec.point);
    assert_eq!(scattered.direction, Vector3(0, 0, S));
}

#[test]
fn metal_mirror_reflection_angled() {
    // fuzz 0, incidence at 45 degrees about the z normal: the outgoing
    // direction mirrors the vertical component and keeps the horizontal,
    // so the angle of incidence equals the angle of reflection
    let metal = Metal::new(Vector3(S, S, S), 0);
    let rec = HitRecord::new(Vector3(0, 0, 0), Vector3(0, 0, S), S, true, metal);
    let ray = Ray::new(Vector3(-S, 0, S), Vector3(S, 0, -S));
    let any = Vector3(0, 0, S);
    let (_, scattered) = metal
        .scatter_with(ray, &rec, any, any, 17)
        .expect("mirror bounce scatters");
    assert_eq!(scattered.direction, Vector3(46341, 0, 46341));
}

#[test]
fn metal_absorbs_when_scattered_below_surface() {
    // a fuzzy metal whose perturbation drags the bounce under the surface
    let metal = Metal::new(Vector3(S, S, S), S);
    let rec = HitRecord::new(Vector3(0, 0, 0), Vector3(0, 0, S), S, true, metal);
    let ray = Ray::new(Vector3(-S, 0, S), Vector3(S, 0, -S));
    // an in-sphere draw pointing straight down drags the grazing
    // reflection below the surface
    let down = Vector3(0, 0, -65535);
    assert!(metal.scatter_with(ray, &rec, down, down, 17).is_none());
}

#[test]
fn dielectric_unit_index_passes_straight_through() {
    // refraction index 1: the outgoing direction equals the incoming one
    let glass = Dielectric::new(S);
    let rec = HitRecord::new(Vector3(0, 0, -S), Vector3(0, 0, S), S, true, glass);
    let ray = Ray::new(Vector3(0, 0, 0), Vector3(0, 0, -S));
    let any = Vector3(0, 0, S);
    let (attenuation, scattered) = glass
        .scatter_with(ray, &rec, any, any, 1000)
        .expect("a dielectric always scatters");
    assert_eq!(attenuation, Vector3(S, S, S));
    assert_eq!(scattered.direction, Vector3(0, 0, -S));
}

#[test]
fn schlick_reflectance_endpoints() {
    // glass with index 1.5: 4% reflection head-on, total at grazing
    assert_eq!(Dielectric::reflectance(65536, 98304), 2621);
    assert_eq!(Dielectric::reflectance(0, 98304), 65536);
}

#[test]
fn average_of_constant_images_is_identity() {
    let c = Vector3(100, 200, 300);
    let make = || Image {
        pixels: vec![c, c, c, c],
        width: 2,
        height: 2,
    };
    let out = Image::average(vec![make(), make(), make()], 2, 2);
    assert_eq!(out.width, 2);
    assert_eq!(out.height, 2);
    assert_eq!(out.pixels, vec![c, c, c, c]);
}

#[test]
fn average_truncates_toward_zero() {
    let a = Image { pixels: vec![Vector3(3, 3, 3)], width: 1, height: 1 };
    let b = Image { pixels: vec![Vector3(4, 4, 4)], width: 1, height: 1 };
    let out = Image::average(vec![a, b], 1, 1);
    assert_eq!(out.pixels, vec![Vector3(3, 3, 3)]);
}

#[test]
fn lambertian_scatter_adds_the_unit_draw() {
    let albedo = Vector3(32768, 16384, 8192);
    let matte = Lambertian::new(albedo);
    let rec = HitRecord::new(Vector3(S, S, S), Vector3(0, 0, S), S, true, matte);
    let ray = Ray::new(Vector3(0, 0, 0), Vector3(0, 0, -S));
    let any = Vector3(0, 0, S);
    let (attenuation, scattered) = matte
        .scatter_with(ray, &rec, Vector3(0, S, 0), any, 17)
        .expect("a diffuse surface always scatters");
    assert_eq!(attenuation, albedo);
    assert_eq!(scattered.origin, Vector3(S, S, S));
    assert_eq!(scattered.direction, Vector3(0, S, S));
}

#[test]
fn lambertian_degenerate_draw_falls_back_to_the_normal() {
    let matte = Lambertian::new(Vector3(32768, 32768, 32768));
    let rec = HitRecord::new(Vector3(0, 0, 0), Vector3(0, 0, S), S, true, matte);
    let ray = Ray::new(Vector3(0, 0, 0), Vector3(0, 0, -S));
    let any = Vector3(0, 0, S);
    let (_, scattered) = matte
        .scatter_with(ray, &rec, Vector3(0, 0, -S), any, 17)
        .expect("a diffuse surface always scatters");
    assert_eq!(scattered.direction, Vector3(0, 0, S));
}

#[test]
fn random_samplers_respect_their_bounds() {
    let mut distinct = false;
    let first = random_in_unit_sphere();
    for _ in 0..50 {
        let p = random_in_unit_sphere();
        let d = (p.0 as i128) * (p.0 as i128) + (p.1 as i128) * (p.1 as i128) + (p.2 as i128)
            * (p.2 as i128);
        assert!(0x4000_0000 <= d && d < (S as i128) * (S as i128));
        if p != first {
            distinct = true;
        }
        let q = random_in_unit_disk();
        assert_eq!(q.2, 0);
        let dq = (q.0 as i128) * (q.0 as i128) + (q.1 as i128) * (q.1 as i128);
        assert!(dq < (S as i128) * (S as i128));
        let u = random_unit_vector();
        assert!(u.0.abs() <= S && u.1.abs() <= S && u.2.abs() <= S);
        // near-unit length: within a few parts in 65536 of one square unit
        let du = (u.0 as i128) * (u.0 as i128) + (u.1 as i128) * (u.1 as i128) + (u.2 as i128)
            * (u.2 as i128);
        let s = S as i128;
        assert!(s * (s - 7) <= du && du <= s * (s + 4));
    }
    assert!(distinct, "the sampler must not return one fixed point");
}

#[test]
fn render_empty_scene_has_unit_range_pixels() {
    let world = HittableList::new();
    let camera = Camera::new(
        Vector3(0, 0, 0),
        Vector3(0, 0, -S),
        Vector3(0, S, 0),
        2 * S,
        S,
        0,
        S,
    );
    let img = render(4, 2, 3, &world, &camera);
    assert_eq!(img.width, 4);
    assert_eq!(img.height, 4);
    assert_eq!(img.pixels.len(), 16);
    for p in &img.pixels {
        assert!(0 <= p.0 && p.0 <= S);
        assert!(0 <= p.1 && p.1 <= S);
        assert!(0 <= p.2 && p.2 <= S);
    }
}

#[test]
fn render_empty_scene_blue_channel_is_exact() {
    // the gradient's blue channel is exactly one unit for every ray, so
    // the mean over any number of jittered samples is exactly one unit
    let world = HittableList::new();
    let camera = Camera::new(
        Vector3(0, 0, 0),
        Vector3(0, 0, -S),
        Vector3(0, S, 0),
        2 * S,
        S,
        0,
        S,
    );
    let img = render(4, 3, 5, &world, &camera);
    for p in &img.pixels {
        assert_eq!(p.2, S);
    }
}

#[test]
fn render_single_sphere_smoke() {
    let mut world = HittableList::new();
    world.add(Sphere::new(Vector3(0, 0, -3 * S), S, gray()));
    world.add(Sphere::new(
        Vector3(0, -100 * S, -3 * S),
        98 * S,
        Metal::new(Vector3(52428, 52428, 52428), 0),
    ));
    let camera = Camera::new(
        Vector3(0, 0, 0),
        Vector3(0, 0, -S),
        Vector3(0, S, 0),
        2 * S,
        S,
        0,
        S,
    );
    let img = render(8, 4, 8, &world, &camera);
    assert_eq!(img.pixels.len(), 64);
    for p in &img.pixels {
        assert!(0 <= p.0 && p.0 <= S);
        assert!(0 <= p.1 && p.1 <= S);
        assert!(0 <= p.2 && p.2 <= S);
    }
}

#[test]
fn clamp_orders_the_bounds() {
    assert_eq!(clamp(5, 0, 3), 3);
    assert_eq!(clamp(-5, 0, 3), 0);
    assert_eq!(clamp(2, 0, 3), 2);
}

#[test]
fn split_samples_divides_the_budget() {
    assert_eq!(split_samples(100, 8), 12);
    assert_eq!(split_samples(7, 8), 0);
    assert_eq!(split_samples(64, 1), 64);
}

#[test]
fn hit_record_set_face_normal_flips_to_face_the_ray() {
    let mut rec = HitRecord::new(Vector3(0, 0, 0), Vector3(0, 0, 0), S, false, gray());
    let ray = Ray::new(Vector3(0, 0, 0), Vector3(0, 0, -S));
    rec.set_face_normal(ray, Vector3(0, 0, S));
    assert!(rec.front_face);
    assert_eq!(rec.normal, Vector3(0, 0, S));
    rec.set_face_normal(ray, Vector3(0, 0, -S));
    assert!(!rec.front_face);
    assert_eq!(rec.normal, Vector3(0, 0, S));
}
