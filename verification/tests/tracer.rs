use pathtracer::aabb::AABB;
use pathtracer::color::Color;
use pathtracer::hitable::{BvhNode, ConstantMedium, Prim};
use pathtracer::material::{reflect, schlick, Material};
use pathtracer::math::{clamp64, fdiv, isqrt, UNIT};
use pathtracer::ratio::Rat;
use pathtracer::ray::Ray;
use pathtracer::sphere::Sphere;
use pathtracer::texture::Texture;
use pathtracer::triangle::Triangle;
use pathtracer::vec3::Vec3;
use rand::SeedableRng;

fn rng() -> rand::rngs::StdRng {
    rand::rngs::StdRng::seed_from_u64(7)
}

fn u(x: i64) -> i64 {
    // world units on the fixed-point grid
    x * UNIT
}

fn window() -> (Rat, Rat) {
    (Rat { num: 1, den: 1000 }, Rat { num: 50, den: 1 })
}

fn gray() -> Material {
    Material::lambertian(Texture::constant(Color::new(512, 512, 512)))
}

#[test]
fn fdiv_floors_toward_minus_infinity() {
    assert_eq!(fdiv(7, 2), 3);
    assert_eq!(fdiv(-7, 2), -4);
    assert_eq!(fdiv(-8, 2), -4);
    assert_eq!(fdiv(0, 5), 0);
}

#[test]
fn isqrt_exact_and_floor() {
    assert_eq!(isqrt(0), 0);
    assert_eq!(isqrt(1), 1);
    assert_eq!(isqrt(15), 3);
    assert_eq!(isqrt(16), 4);
    assert_eq!(isqrt(1 << 40), 1 << 20);
}

#[test]
fn clamp_behaves() {
    assert_eq!(clamp64(5, 0, 10), 5);
    assert_eq!(clamp64(-5, 0, 10), 0);
    assert_eq!(clamp64(50, 0, 10), 10);
}

#[test]
fn rat_ordering() {
    let a = Rat { num: 1, den: 3 };
    let b = Rat { num: 1, den: 2 };
    assert!(a.lt(&b));
    assert!(a.le(&b));
    assert!(!b.le(&a));
    assert_eq!(a.max(&b), b);
    assert_eq!(a.min(&b), a);
}

// AABB slab test: a ray down the x axis hits the unit box, a parallel
// ray offset in y misses it.
#[test]
fn aabb_slab_hit_and_miss() {
    let b = AABB::new(Vec3::new(-u(1), -u(1), -u(1)), Vec3::new(u(1), u(1), u(1)));
    let (tmin, tmax) = window();
    let hit_ray = Ray::new(Vec3::new(-u(5), 0, 0), Vec3::new(u(1), 0, 0));
    assert!(b.hit(&hit_ray, &tmin, &tmax));
    let miss_ray = Ray::new(Vec3::new(-u(5), u(5), 0), Vec3::new(u(1), 0, 0));
    assert!(!b.hit(&miss_ray, &tmin, &tmax));
}

// Sphere intersection round-trip: from (0,0,-5) toward +z against the
// unit sphere, the hit is at exactly t = 4 with normal (0,0,-1).
#[test]
fn sphere_hit_exact() {
    let s = Sphere::new(Vec3::new(0, 0, 0), u(1), gray());
    let (tmin, tmax) = window();
    let r = Ray::new(Vec3::new(0, 0, -u(5)), Vec3::new(0, 0, u(1)));
    let h = s.hit(&tmin, &tmax, &r).expect("must hit");
    // t = 4 as an exact rational
    assert_eq!(h.t.num as i128 * 1, 4 * h.t.den as i128);
    assert_eq!((h.p.x, h.p.y, h.p.z), (0, 0, -u(1)));
    assert_eq!((h.normal.x, h.normal.y, h.normal.z), (0, 0, -UNIT));
}

#[test]
fn sphere_miss_behind_and_outside() {
    let s = Sphere::new(Vec3::new(0, 0, 0), u(1), gray());
    let (tmin, tmax) = window();
    // pointing away
    let r = Ray::new(Vec3::new(0, 0, -u(5)), Vec3::new(0, 0, -u(1)));
    assert!(s.hit(&tmin, &tmax, &r).is_none());
    // offset sideways
    let r2 = Ray::new(Vec3::new(0, u(3), -u(5)), Vec3::new(0, 0, u(1)));
    assert!(s.hit(&tmin, &tmax, &r2).is_none());
}

// Triangle intersection: the unit triangle hit at barycentric
// (0.25, 0.25) reports exactly t = 1; a ray aimed wide misses.
#[test]
fn triangle_hit_exact() {
    let t = Triangle::new(
        Vec3::new(0, 0, 0),
        Vec3::new(u(1), 0, 0),
        Vec3::new(0, u(1), 0),
        Vec3::new(0, 0, UNIT),
        gray(),
    );
    let (tmin, tmax) = window();
    let r = Ray::new(Vec3::new(256, 256, -u(1)), Vec3::new(0, 0, u(1)));
    let h = t.hit(&tmin, &tmax, &r).expect("must hit");
    assert_eq!(h.t.num as i128 * 1, 1 * h.t.den as i128);
    // the face normal is flipped to face the incoming ray backward
    assert_eq!((h.normal.x, h.normal.y, h.normal.z), (0, 0, -UNIT));
}

#[test]
fn triangle_miss() {
    let t = Triangle::new(
        Vec3::new(0, 0, 0),
        Vec3::new(u(1), 0, 0),
        Vec3::new(0, u(1), 0),
        Vec3::new(0, 0, UNIT),
        gray(),
    );
    let (tmin, tmax) = window();
    let r = Ray::new(Vec3::new(u(2), u(2), -u(1)), Vec3::new(0, 0, u(1)));
    assert!(t.hit(&tmin, &tmax, &r).is_none());
}

fn scene_prims() -> Vec<Prim> {
    let mut v: Vec<Prim> = Vec::new();
    v.push(Prim::Sphere(Sphere::new(Vec3::new(0, 0, u(4)), u(1), gray())));
    v.push(Prim::Sphere(Sphere::new(Vec3::new(u(2), 0, u(8)), u(1), gray())));
    v.push(Prim::Sphere(Sphere::new(Vec3::new(-u(3), 0, u(6)), u(2), gray())));
    v.push(Prim::Triangle(Triangle::new(
        Vec3::new(-u(1), -u(1), u(2)),
        Vec3::new(u(1), -u(1), u(2)),
        Vec3::new(0, u(1), u(2)),
        Vec3::new(0, 0, UNIT),
        gray(),
    )));
    v.push(Prim::Sphere(Sphere::new(Vec3::new(0, u(3), u(5)), u(1), gray())));
    v.push(Prim::Triangle(Triangle::new(
        Vec3::new(u(3), u(3), u(7)),
        Vec3::new(u(5), u(3), u(7)),
        Vec3::new(u(4), u(5), u(7)),
        Vec3::new(0, 0, UNIT),
        gray(),
    )));
    v.push(Prim::Sphere(Sphere::new(Vec3::new(0, -u(4), u(9)), u(3), gray())));
    v
}

// BVH equivalence: for every test ray, the tree returns the same
// nearest parameter as a linear scan over the primitives.
#[test]
fn bvh_matches_linear_scan() {
    let (tmin, tmax) = window();
    let mut r1 = rng();
    let tree = Prim::BvhNode(BvhNode::new(scene_prims(), &mut r1));
    let rays = vec![
        Ray::new(Vec3::new(0, 0, 0), Vec3::new(0, 0, u(1))),
        Ray::new(Vec3::new(0, 0, 0), Vec3::new(300, 100, u(1))),
        Ray::new(Vec3::new(-u(3), 0, 0), Vec3::new(0, 0, u(1))),
        Ray::new(Vec3::new(u(2), 0, 0), Vec3::new(0, 0, u(1))),
        Ray::new(Vec3::new(0, u(3), 0), Vec3::new(0, 0, u(1))),
        Ray::new(Vec3::new(0, -u(4), 0), Vec3::new(100, 50, u(1))),
        Ray::new(Vec3::new(0, 0, u(20)), Vec3::new(0, 0, -u(1))),
        Ray::new(Vec3::new(u(9), u(9), u(9)), Vec3::new(u(1), u(1), u(1))),
        Ray::new(Vec3::new(0, 0, 0), Vec3::new(0, u(1), 0)),
    ];
    for r in rays {
        let mut ra = rng();
        let tree_hit = tree.hit(&tmin, &tmax, &r, &mut ra).map(|(h, _)| h.t);
        let mut best: Option<Rat> = None;
        for p in scene_prims() {
            let mut rb = rng();
            if let Some((h, _)) = p.hit(&tmin, &tmax, &r, &mut rb) {
                best = match best {
                    None => Some(h.t),
                    Some(b) => {
                        if h.t.lt(&b) {
                            Some(h.t)
                        } else {
                            Some(b)
                        }
                    }
                };
            }
        }
        match (tree_hit, best) {
            (None, None) => {}
            (Some(a), Some(b)) => {
                assert!(a.le(&b) && b.le(&a), "tree {:?} vs scan {:?}", a, b);
            }
            (a, b) => panic!("tree {:?} vs scan {:?}", a, b),
        }
    }
}

// Dielectric energy conservation: every scatter event has exactly white
// attenuation, whichever branch the randomness takes.
#[test]
fn dielectric_attenuation_is_white() {
    let glass = Material::dielectric(1536); // index 1.5
    let mut rg = rng();
    for i in 0..200u64 {
        let r = Ray::new(
            Vec3::new(0, 0, -u(2)),
            Vec3::new((i as i64 % 64) * 16 - 512, 0, u(1)),
        );
        let sc = glass
            .scatter(&r, Vec3::new(0, 0, -u(1)), Vec3::new(0, 0, -UNIT), &mut rg)
            .expect("a dielectric always scatters");
        assert_eq!(sc.attenuation, Color::new(UNIT, UNIT, UNIT));
    }
}

#[test]
fn diffuse_light_never_scatters_and_emits() {
    let lamp = Material::diffuse_light(Texture::constant(Color::new(2048, 2048, 2048)));
    let mut rg = rng();
    let r = Ray::new(Vec3::new(0, 0, 0), Vec3::new(0, 0, u(1)));
    assert!(lamp
        .scatter(&r, Vec3::new(0, 0, u(1)), Vec3::new(0, 0, -UNIT), &mut rg)
        .is_none());
    let e = lamp.emitted(0, 0, &Vec3::new(0, 0, u(1)));
    assert_eq!(e, Color::new(2048, 2048, 2048));
}

#[test]
fn metal_reflection_exact() {
    // straight-on reflection off a +z-facing surface flips z
    let v = Vec3::new(0, 0, -UNIT);
    let n = Vec3::new(0, 0, UNIT);
    let r = reflect(v, n);
    assert_eq!((r.x, r.y, r.z), (0, 0, UNIT));
}

#[test]
fn schlick_at_grazing_incidence_is_full() {
    // cosine 0: r0 + (1 - r0) * 1
    let p = schlick(0, 1536);
    assert!(p >= 1000 && p <= 1024, "grazing reflectance {}", p);
    // head-on: close to r0 = ((1-1.5)/(2.5))^2 = 0.04 -> about 41
    let q = schlick(1024, 1536);
    assert!(q <= 64, "head-on reflectance {}", q);
}

#[test]
fn checker_texture_alternates() {
    let t = Texture::checker(
        Texture::constant(Color::new(0, 0, 0)),
        Texture::constant(Color::new(1024, 1024, 1024)),
    );
    let a = t.value(0, 0, &Vec3::new(0, 0, 0));
    let b = t.value(0, 0, &Vec3::new(400, 0, 0));
    assert_ne!(a, b);
}

// Depth termination: a closed diffuse world must return a finite,
// non-negative color without recursing past the depth cap.
#[test]
fn color_terminates_in_closed_world() {
    let mut r1 = rng();
    let mut v: Vec<Prim> = Vec::new();
    v.push(Prim::Sphere(Sphere::new(Vec3::new(0, 0, 0), u(20), gray())));
    v.push(Prim::Sphere(Sphere::new(Vec3::new(0, 0, u(5)), u(1), gray())));
    let world = Prim::BvhNode(BvhNode::new(v, &mut r1));
    let ray = Ray::new(Vec3::new(0, 0, 0), Vec3::new(17, 31, u(1)));
    let c = pathtracer::integrator::color(&ray, &world, 0, &mut r1);
    assert!(c.r >= 0 && c.g >= 0 && c.b >= 0);
    assert!(c.r <= 51 * 1048576 && c.g <= 51 * 1048576 && c.b <= 51 * 1048576);
    // at the depth cap only emission is returned, and nothing here emits
    let c50 = pathtracer::integrator::color(&ray, &world, 50, &mut r1);
    assert_eq!(c50, Color::new(0, 0, 0));
}

#[test]
fn emitter_lights_the_scene() {
    let mut r1 = rng();
    let mut v: Vec<Prim> = Vec::new();
    v.push(Prim::Sphere(Sphere::new(
        Vec3::new(0, 0, u(4)),
        u(1),
        Material::diffuse_light(Texture::constant(Color::new(2048, 2048, 2048))),
    )));
    let world = Prim::BvhNode(BvhNode::new(v, &mut r1));
    let ray = Ray::new(Vec3::new(0, 0, 0), Vec3::new(0, 0, u(1)));
    let c = pathtracer::integrator::color(&ray, &world, 0, &mut r1);
    assert_eq!(c, Color::new(2048, 2048, 2048));
}

// Medium sampling: an extreme density scatters essentially on entry,
// a vanishing density lets the ray pass through.
#[test]
fn medium_density_limits() {
    let (tmin, tmax) = window();
    let ray = Ray::new(Vec3::new(0, 0, 0), Vec3::new(0, 0, u(1)));
    let boundary_hi = Prim::Sphere(Sphere::new(Vec3::new(0, 0, u(6)), u(2), gray()));
    let fog_hi = Prim::ConstantMedium(ConstantMedium::new(
        boundary_hi,
        1048576,
        Texture::constant(Color::new(512, 512, 512)),
    ));
    let mut rg = rng();
    let mut scattered = 0u32;
    for _ in 0..32 {
        if let Some((h, _)) = fog_hi.hit(&tmin, &tmax, &ray, &mut rg) {
            scattered += 1;
            // entry is at t = 4; an extreme density scatters right there
            let four = Rat { num: 401, den: 100 };
            assert!(h.t.le(&four), "scatter far inside: {:?}", h.t);
        }
    }
    assert!(scattered >= 28, "extreme density rarely scattered: {}", scattered);

    let boundary_lo = Prim::Sphere(Sphere::new(Vec3::new(0, 0, u(6)), u(2), gray()));
    let fog_lo = Prim::ConstantMedium(ConstantMedium::new(
        boundary_lo,
        1,
        Texture::constant(Color::new(512, 512, 512)),
    ));
    let mut pass = 0u32;
    for _ in 0..32 {
        if fog_lo.hit(&tmin, &tmax, &ray, &mut rg).is_none() {
            pass += 1;
        }
    }
    assert!(pass >= 28, "vanishing density still scattered: {}", 32 - pass);
}

// The background absorbs: a ray that misses everything samples black.
#[test]
fn background_is_black() {
    let mut r1 = rng();
    let mut v: Vec<Prim> = Vec::new();
    v.push(Prim::Sphere(Sphere::new(Vec3::new(0, 0, u(10)), u(1), gray())));
    let world = Prim::BvhNode(BvhNode::new(v, &mut r1));
    let ray = Ray::new(Vec3::new(0, 0, 0), Vec3::new(0, 0, -u(1)));
    let c = pathtracer::integrator::color(&ray, &world, 0, &mut r1);
    assert_eq!(c, Color::new(0, 0, 0));
}

#[test]
fn color_tint_multiplies() {
    let att = Color::new(512, 512, 512); // one half
    let c = Color::new(2048, 1024, 0);
    let t = att.tint(&c);
    assert_eq!(t, Color::new(1024, 512, 0));
}

#[test]
fn vec3_algebra() {
    let a = Vec3::new(1, 2, 3);
    let b = Vec3::new(4, 5, 6);
    assert_eq!(a.dot(&b), 32);
    let c = a.cross(&b);
    assert_eq!((c.x, c.y, c.z), (-3, 6, -3));
    let s = a.add(&b).sub(&b);
    assert_eq!(s, a);
    let unit = Vec3::unit_vector(Vec3::new(0, 0, 5000));
    assert_eq!((unit.x, unit.y, unit.z), (0, 0, UNIT));
}
