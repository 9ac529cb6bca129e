//! Materials: how a ray scatters or is absorbed at a hit point, and what
//! the surface emits. Directions are fixed-point vectors (`UNIT` is unit
//! length); probabilities are fixed-point in `[0, UNIT]`.

use vstd::prelude::*;
use crate::color::{Color, color_le, CLIMIT};
use crate::math::{clamp_spec, clamp64, fdiv, iabs, isqrt, UNIT, DMAX, PMAX};
use crate::ray::{Ray, ray_wf};
use crate::ratio::lemma_mul_bound;
use crate::rng::rand_below;
use crate::texture::{Texture, texture_le, texture_value_spec, lemma_texture_value_le};
use crate::vec3::{Vec3, bounded, dot3, dot_ok, lemma_dot_bound};

verus! {

pub struct ScatterRecord {
    pub attenuation: Color,
    pub scattered: Ray,
}

pub struct RefractRecord {
    pub should_refract: bool,
    pub refracted: Vec3,
}

pub enum Material {
    Lambertian { albedo: Texture },
    Metal { albedo: Texture, fuzz: i64 },
    Dielectric { ref_idx: i64 },
    Isotropic { albedo: Texture },
    DiffuseLight { emit: Texture },
}

/// Albedos never brighten (at most `UNIT` per channel), fuzz is a
/// fraction, the refractive index is between a quarter and four, and an
/// emitter stays below the global brightness cap.
pub open spec fn material_wf(m: Material) -> bool {
    match m {
        Material::Lambertian { albedo } => texture_le(albedo, UNIT as int),
        Material::Metal { albedo, fuzz } => texture_le(albedo, UNIT as int) && 0 <= fuzz <= UNIT,
        Material::Dielectric { ref_idx } => 256 <= ref_idx <= 4096,
        Material::Isotropic { albedo } => texture_le(albedo, UNIT as int),
        Material::DiffuseLight { emit } => texture_le(emit, CLIMIT as int),
    }
}

/// What the surface emits: only a light emits, everything else is black.
pub open spec fn emitted_spec(m: Material, p: Vec3) -> Color {
    match m {
        Material::DiffuseLight { emit } => texture_value_spec(emit, p),
        _ => Color { r: 0, g: 0, b: 0 },
    }
}

/// A non-zero vector strictly inside the fixed-point unit ball.
pub open spec fn unit_ball(u: Vec3) -> bool {
    &&& bounded(u, UNIT as int)
    &&& 0 < dot3(u, u) < 1048576
}

/// One component of the mirror reflection `v - 2 (v.n) n`, with `n`
/// scaled by `UNIT`.
pub open spec fn reflect_comp(v: int, n: int, d: int) -> int {
    v - (2 * d * n) / 1048576
}

/// The refraction discriminant `1 - ni^2 (1 - dt^2)` in `UNIT` scale,
/// where `dt` is the cosine between the unit incoming direction and the
/// outward normal.
pub open spec fn refract_disc_spec(uv: Vec3, n: Vec3, ni: int) -> int {
    let dt = dot3(uv, n) / 1024;
    1024 - ((ni * ni) / 1024) * (1024 - (dt * dt) / 1024) / 1024
}

/// One component of the refracted direction
/// `ni (uv - n dt) - n sqrt(disc)`, everything in `UNIT` scale.
pub open spec fn refract_comp(uv_i: int, n_i: int, dt: int, ni: int, sq: int) -> int {
    (ni * (uv_i - (n_i * dt) / 1024)) / 1024 - (n_i * sq) / 1024
}

/// Schlick's reflectance approximation in fixed point:
/// `r0 + (1 - r0) (1 - cosine)^5` with `r0 = ((1 - ri) / (1 + ri))^2`.
pub open spec fn schlick_spec(cosine: int, ref_idx: int) -> int {
    let a = ((1024 - ref_idx) * 1024) / (1024 + ref_idx);
    let r0 = (a * a) / 1024;
    let c1 = 1024 - cosine;
    let p2 = (c1 * c1) / 1024;
    let p4 = (p2 * p2) / 1024;
    let p5 = (p4 * c1) / 1024;
    r0 + ((1024 - r0) * p5) / 1024
}

/// The scattered direction of a diffuse bounce: the normal plus a draw
/// from the unit ball, except that a draw exactly cancelling the normal
/// is used unchanged to keep the direction non-zero.
pub open spec fn diffuse_dir(normal: Vec3, u: Vec3, dir: Vec3) -> bool {
    ||| (dir.x == normal.x + u.x && dir.y == normal.y + u.y && dir.z == normal.z + u.z
        && !(dir.x == 0 && dir.y == 0 && dir.z == 0))
    ||| (normal.x + u.x == 0 && normal.y + u.y == 0 && normal.z + u.z == 0 && dir == u)
}

/// The scattered direction of a fuzzed mirror bounce: the reflection of
/// the unit incoming direction, perturbed by `fuzz` times a unit-ball
/// draw, clamped into the legal direction range.
pub open spec fn metal_dir(d: Vec3, normal: Vec3, fuzz: int, u: Vec3, dir: Vec3) -> bool {
    let uv = Vec3::unit_spec3(d);
    let dd = dot3(uv, normal);
    &&& dir.x == clamp_spec(reflect_comp(uv.x as int, normal.x as int, dd) + (fuzz * u.x) / 1024, -8192, 8192)
    &&& dir.y == clamp_spec(reflect_comp(uv.y as int, normal.y as int, dd) + (fuzz * u.y) / 1024, -8192, 8192)
    &&& dir.z == clamp_spec(reflect_comp(uv.z as int, normal.z as int, dd) + (fuzz * u.z) / 1024, -8192, 8192)
}

/// Component-wise negation.
pub open spec fn neg3(v: Vec3) -> Vec3 {
    Vec3 { x: (-v.x) as i64, y: (-v.y) as i64, z: (-v.z) as i64 }
}

/// The dielectric's outgoing direction for the drawn value `dr`:
/// whether the ray enters or exits follows the sign of `d.n`; the
/// refraction ratio, cosine and Schlick probability follow the
/// entering/exiting branch; under total internal reflection the
/// probability is forced to the full scale, so the reflection is taken
/// for every draw. The chosen direction is clamped into the legal
/// range, and an all-zero result falls back to the incoming direction.
pub open spec fn dielectric_dir(ref_idx: int, r: Ray, normal: Vec3, dr: int, dir: Vec3) -> bool {
    let d = r.direction;
    let dn = dot3(d, normal);
    let len = crate::math::isqrt_spec(dot3(d, d) as nat) as int;
    let outward = if dn > 0 { neg3(normal) } else { normal };
    let ni: int = if dn > 0 { ref_idx } else { 1048576int / ref_idx };
    let cosine = clamp_spec(
        if dn > 0 { ref_idx * dn / (len * 1024) } else { (0 - dn) / len }, 0, 1024);
    let uv = Vec3::unit_spec3(d);
    let dt = dot3(uv, outward) / 1024;
    let disc = refract_disc_spec(uv, outward, ni);
    let sq = crate::math::isqrt_spec((disc * 1024) as nat) as int;
    let prob = if disc > 0 { schlick_spec(cosine, ref_idx) } else { 1024 };
    let rawx = if dr < prob { reflect_comp(d.x as int, normal.x as int, dn) }
        else { refract_comp(uv.x as int, outward.x as int, dt, ni, sq) };
    let rawy = if dr < prob { reflect_comp(d.y as int, normal.y as int, dn) }
        else { refract_comp(uv.y as int, outward.y as int, dt, ni, sq) };
    let rawz = if dr < prob { reflect_comp(d.z as int, normal.z as int, dn) }
        else { refract_comp(uv.z as int, outward.z as int, dt, ni, sq) };
    let cx = clamp_spec(rawx, -8192, 8192);
    let cy = clamp_spec(rawy, -8192, 8192);
    let cz = clamp_spec(rawz, -8192, 8192);
    if cx == 0 && cy == 0 && cz == 0 {
        dir == d
    } else {
        dir.x == cx && dir.y == cy && dir.z == cz
    }
}

/// A legal draw together with the direction it selects.
pub open spec fn dielectric_draw_ok(ref_idx: int, r: Ray, normal: Vec3, dr: int,
    dir: Vec3) -> bool {
    0 <= dr && dr < 1024 && dielectric_dir(ref_idx, r, normal, dr, dir)
}

/// Everything scattering promises, variant by variant. A lambertian or
/// isotropic surface always scatters; a metal scatters exactly when the
/// fuzzed reflection leaves the surface; a dielectric always scatters
/// with white attenuation; a light never scatters.
pub open spec fn scatter_ok(m: Material, r: Ray, point: Vec3, normal: Vec3,
    sc: Option<ScatterRecord>) -> bool {
    match m {
        Material::Lambertian { albedo } => sc is Some && {
            let s = sc->0;
            &&& s.attenuation == texture_value_spec(albedo, point)
            &&& s.scattered.origin == point
            &&& exists|u: Vec3| unit_ball(u) && diffuse_dir(normal, u, s.scattered.direction)
        },
        Material::Metal { albedo, fuzz } => match sc {
            Option::None => exists|u: Vec3| unit_ball(u) && {
                forall|dir: Vec3| metal_dir(r.direction, normal, fuzz as int, u, dir)
                    ==> dot3(dir, normal) <= 0 || (dir.x == 0 && dir.y == 0 && dir.z == 0)
            },
            Option::Some(s) => {
                &&& s.attenuation == texture_value_spec(albedo, point)
                &&& s.scattered.origin == point
                &&& dot3(s.scattered.direction, normal) > 0
                &&& exists|u: Vec3| unit_ball(u) && metal_dir(r.direction, normal, fuzz as int, u,
                        s.scattered.direction)
            },
        },
        Material::Dielectric { ref_idx } => sc is Some && {
            let s = sc->0;
            &&& s.attenuation == (Color { r: 1024i64, g: 1024i64, b: 1024i64 })
            &&& s.scattered.origin == point
            &&& exists|dr: int| #[trigger] dielectric_draw_ok(ref_idx as int, r, normal, dr,
                    s.scattered.direction)
        },
        Material::Isotropic { albedo } => sc is Some && {
            let s = sc->0;
            &&& s.attenuation == texture_value_spec(albedo, point)
            &&& s.scattered.origin == point
            &&& unit_ball(s.scattered.direction)
        },
        Material::DiffuseLight { .. } => sc is None,
    }
}

/// Draws vectors uniformly from a cube until one falls strictly inside
/// the unit ball and is non-zero; after a bounded number of rejected
/// draws it falls back to a fixed interior vector.
pub fn random_in_unit_sphere(rng: &mut rand::rngs::StdRng) -> (v: Vec3)
    ensures
        unit_ball(v),
{
    let mut tries: u64 = 0;
    while tries < 64
        invariant true,
        decreases 64 - tries,
    {
        let x = rand_below(rng, 2049) as i64 - 1024;
        let y = rand_below(rng, 2049) as i64 - 1024;
        let z = rand_below(rng, 2049) as i64 - 1024;
        let v = Vec3 { x, y, z };
        proof {
            lemma_dot_bound(v, v, 1024, 1024);
        }
        let s = v.dot(&v);
        if 0 < s && s < 1048576 {
            return v;
        }
        tries = tries + 1;
    }
    let v = Vec3 { x: 512, y: 0, z: 0 };
    proof {
        lemma_dot_bound(v, v, 512, 512);
    }
    v
}

/// Clamps each component into `[-DMAX, DMAX]` so the result is a legal
/// ray direction magnitude.
pub fn clamp_dir(v: &Vec3) -> (r: Vec3)
    ensures
        r.x == clamp_spec(v.x as int, -8192, 8192),
        r.y == clamp_spec(v.y as int, -8192, 8192),
        r.z == clamp_spec(v.z as int, -8192, 8192),
        bounded(r, DMAX as int),
{
    Vec3 {
        x: clamp64(v.x, -8192, 8192),
        y: clamp64(v.y, -8192, 8192),
        z: clamp64(v.z, -8192, 8192),
    }
}

/// The mirror reflection of `v` about the `UNIT`-scaled normal `n`.
pub fn reflect(v: Vec3, n: Vec3) -> (r: Vec3)
    requires
        bounded(v, 8192),
        bounded(n, 2048),
    ensures
        r.x == reflect_comp(v.x as int, n.x as int, dot3(v, n)),
        r.y == reflect_comp(v.y as int, n.y as int, dot3(v, n)),
        r.z == reflect_comp(v.z as int, n.z as int, dot3(v, n)),
        bounded(r, 262144),
{
    proof {
        lemma_dot_bound(v, n, 8192, 2048);
    }
    let d = v.dot(&n);
    Vec3 {
        x: reflect1(v.x, n.x, d),
        y: reflect1(v.y, n.y, d),
        z: reflect1(v.z, n.z, d),
    }
}

fn reflect1(v: i64, n: i64, d: i64) -> (r: i64)
    requires
        iabs(v as int) <= 8192,
        iabs(n as int) <= 2048,
        iabs(d as int) <= 50331648,
    ensures
        r == reflect_comp(v as int, n as int, d as int),
        iabs(r as int) <= 262144,
{
    proof {
        lemma_mul_bound(2 * (d as int), n as int, 100663296, 2048);
    }
    let q = fdiv(2 * (d as i128) * (n as i128), 1048576);
    proof {
        assert(iabs(q as int) <= 253952) by (nonlinear_arith)
            requires
                1048576 * (q as int) <= 2 * (d as int) * (n as int) < 1048576 * (q as int + 1),
                iabs(2 * (d as int) * (n as int)) <= 206158430208,
        ;
    }
    v - (q as i64)
}

/// Schlick's reflectance approximation; the result is a probability in
/// `[0, UNIT]`.
pub fn schlick(cosine: i64, ref_idx: i64) -> (p: i64)
    requires
        0 <= cosine <= 1024,
        256 <= ref_idx <= 4096,
    ensures
        p == schlick_spec(cosine as int, ref_idx as int),
        0 <= p <= 1024,
{
    let a = fdiv(((1024 - ref_idx) as i128) * 1024, (1024 + ref_idx) as i128) as i64;
    proof {
        assert(iabs(a as int) <= 1024) by (nonlinear_arith)
            requires
                ((1024 + ref_idx) as int) * (a as int) <= ((1024 - ref_idx) as int) * 1024
                    < ((1024 + ref_idx) as int) * (a as int + 1),
                256 <= ref_idx <= 4096,
        ;
        lemma_mul_bound(a as int, a as int, 1024, 1024);
    }
    let r0 = fdiv((a as i128) * (a as i128), 1024) as i64;
    proof {
        assert(0 <= r0 <= 1024) by (nonlinear_arith)
            requires
                1024 * (r0 as int) <= (a as int) * (a as int) < 1024 * (r0 as int + 1),
                iabs(a as int) <= 1024,
        ;
    }
    let c1 = 1024 - cosine;
    proof {
        lemma_mul_bound(c1 as int, c1 as int, 1024, 1024);
    }
    let p2 = fdiv((c1 as i128) * (c1 as i128), 1024) as i64;
    proof {
        assert(0 <= p2 <= 1024) by (nonlinear_arith)
            requires
                1024 * (p2 as int) <= (c1 as int) * (c1 as int) < 1024 * (p2 as int + 1),
                0 <= c1 <= 1024,
        ;
    }
    proof {
        lemma_mul_bound(p2 as int, p2 as int, 1024, 1024);
    }
    let p4 = fdiv((p2 as i128) * (p2 as i128), 1024) as i64;
    proof {
        assert(0 <= p4 <= 1024) by (nonlinear_arith)
            requires
                1024 * (p4 as int) <= (p2 as int) * (p2 as int) < 1024 * (p4 as int + 1),
                0 <= p2 <= 1024,
        ;
    }
    proof {
        lemma_mul_bound(p4 as int, c1 as int, 1024, 1024);
    }
    let p5 = fdiv((p4 as i128) * (c1 as i128), 1024) as i64;
    proof {
        assert(0 <= p5 <= 1024) by (nonlinear_arith)
            requires
                1024 * (p5 as int) <= (p4 as int) * (c1 as int) < 1024 * (p5 as int + 1),
                0 <= p4 <= 1024,
                0 <= c1 <= 1024,
        ;
    }
    proof {
        lemma_mul_bound((1024 - r0) as int, p5 as int, 1024, 1024);
    }
    let tail = fdiv(((1024 - r0) as i128) * (p5 as i128), 1024) as i64;
    proof {
        assert(0 <= tail <= 1024 - r0) by (nonlinear_arith)
            requires
                1024 * (tail as int) <= ((1024 - r0) as int) * (p5 as int) < 1024 * (tail as int + 1),
                0 <= 1024 - r0 <= 1024,
                0 <= p5 <= 1024,
        ;
    }
    r0 + tail
}

/// Snell refraction of `v` about the outward normal `n` with ratio
/// `ni_over_nt` (all `UNIT`-scaled); refuses when the discriminant is
/// not positive (total internal reflection).
pub fn refract(v: Vec3, n: Vec3, ni_over_nt: i64) -> (rec: RefractRecord)
    requires
        bounded(v, 8192),
        !(v.x == 0 && v.y == 0 && v.z == 0),
        bounded(n, 2048),
        0 < ni_over_nt <= 16384,
    ensures
        rec.should_refract == (refract_disc_spec(Vec3::unit_spec3(v), n, ni_over_nt as int) > 0),
        rec.should_refract ==> {
            let uv = Vec3::unit_spec3(v);
            let dt = dot3(uv, n) / 1024;
            let sq = crate::math::isqrt_spec((refract_disc_spec(uv, n, ni_over_nt as int) * 1024) as nat) as int;
            &&& rec.refracted.x == refract_comp(uv.x as int, n.x as int, dt, ni_over_nt as int, sq)
            &&& rec.refracted.y == refract_comp(uv.y as int, n.y as int, dt, ni_over_nt as int, sq)
            &&& rec.refracted.z == refract_comp(uv.z as int, n.z as int, dt, ni_over_nt as int, sq)
        },
        !rec.should_refract ==> rec.refracted == (Vec3 { x: 0i64, y: 0i64, z: 0i64 }),
        bounded(rec.refracted, 2097152),
{
    proof {
        lemma_dot_bound(v, v, 8192, 8192);
    }
    let uv = Vec3::unit_vector(v);
    proof {
        lemma_dot_bound(uv, n, 2048, 2048);
    }
    let dtn = uv.dot(&n);
    let dt = fdiv(dtn as i128, 1024) as i64;
    proof {
        assert(iabs(dt as int) <= 16384) by (nonlinear_arith)
            requires
                1024 * (dt as int) <= dtn < 1024 * (dt as int + 1),
                iabs(dtn as int) <= 12582912,
        ;
        lemma_mul_bound(ni_over_nt as int, ni_over_nt as int, 16384, 16384);
    }
    let a = fdiv((ni_over_nt as i128) * (ni_over_nt as i128), 1024) as i64;
    proof {
        assert(0 <= a <= 262144) by (nonlinear_arith)
            requires
                1024 * (a as int) <= (ni_over_nt as int) * (ni_over_nt as int) < 1024 * (a as int + 1),
                0 < ni_over_nt <= 16384,
        ;
        lemma_mul_bound(dt as int, dt as int, 16384, 16384);
    }
    let b = 1024 - fdiv((dt as i128) * (dt as i128), 1024) as i64;
    proof {
        assert(iabs(b as int) <= 263168) by (nonlinear_arith)
            requires
                1024 * ((1024 - b) as int) <= (dt as int) * (dt as int) < 1024 * ((1024 - b) as int + 1),
                iabs((dt as int) * (dt as int)) <= 268435456,
        ;
        lemma_mul_bound(a as int, b as int, 262144, 263168);
    }
    let disc = 1024 - fdiv((a as i128) * (b as i128), 1024) as i64;
    proof {
        assert(iabs(disc as int) <= 134217728) by (nonlinear_arith)
            requires
                1024 * ((1024 - disc) as int) <= (a as int) * (b as int)
                    < 1024 * ((1024 - disc) as int + 1),
                iabs((a as int) * (b as int)) <= 68988764160,
        ;
    }
    if disc > 0 {
        let squ = isqrt((disc as u128) * 1024);
        proof {
            assert(squ <= 524288) by (nonlinear_arith)
                requires
                    (squ as int) * (squ as int) <= (disc as int) * 1024,
                    0 < disc <= 134217728,
            ;
        }
        let sq = squ as i64;
        let rx = refract1(uv.x, n.x, dt, ni_over_nt, sq);
        let ry = refract1(uv.y, n.y, dt, ni_over_nt, sq);
        let rz = refract1(uv.z, n.z, dt, ni_over_nt, sq);
        RefractRecord { should_refract: true, refracted: Vec3 { x: rx, y: ry, z: rz } }
    } else {
        RefractRecord { should_refract: false, refracted: Vec3 { x: 0, y: 0, z: 0 } }
    }
}

fn refract1(uv_i: i64, n_i: i64, dt: i64, ni: i64, sq: i64) -> (r: i64)
    requires
        iabs(uv_i as int) <= 2048,
        iabs(n_i as int) <= 2048,
        iabs(dt as int) <= 16384,
        0 < ni <= 16384,
        0 <= sq <= 524288,
    ensures
        r == refract_comp(uv_i as int, n_i as int, dt as int, ni as int, sq as int),
        iabs(r as int) <= 2097152,
{
    proof {
        lemma_mul_bound(n_i as int, dt as int, 2048, 16384);
    }
    let w = fdiv((n_i as i128) * (dt as i128), 1024) as i64;
    proof {
        assert(iabs(w as int) <= 33792) by (nonlinear_arith)
            requires
                1024 * (w as int) <= (n_i as int) * (dt as int) < 1024 * (w as int + 1),
                iabs((n_i as int) * (dt as int)) <= 33554432,
        ;
        lemma_mul_bound(ni as int, (uv_i - w) as int, 16384, 35840);
    }
    let t1 = fdiv((ni as i128) * ((uv_i - w) as i128), 1024) as i64;
    proof {
        assert(iabs(t1 as int) <= 574464) by (nonlinear_arith)
            requires
                1024 * (t1 as int) <= (ni as int) * ((uv_i - w) as int) < 1024 * (t1 as int + 1),
                iabs((ni as int) * ((uv_i - w) as int)) <= 587202560,
        ;
        lemma_mul_bound(n_i as int, sq as int, 2048, 524288);
    }
    let t2 = fdiv((n_i as i128) * (sq as i128), 1024) as i64;
    proof {
        assert(iabs(t2 as int) <= 1049600) by (nonlinear_arith)
            requires
                1024 * (t2 as int) <= (n_i as int) * (sq as int) < 1024 * (t2 as int + 1),
                iabs((n_i as int) * (sq as int)) <= 1073741824,
        ;
    }
    t1 - t2
}

impl Material {
    pub fn lambertian(albedo: Texture) -> (m: Material)
        ensures m == (Material::Lambertian { albedo }),
    {
        Material::Lambertian { albedo }
    }

    pub fn metal(albedo: Texture, fuzz: i64) -> (m: Material)
        ensures m == (Material::Metal { albedo, fuzz }),
    {
        Material::Metal { albedo, fuzz }
    }

    pub fn dielectric(ref_idx: i64) -> (m: Material)
        ensures m == (Material::Dielectric { ref_idx }),
    {
        Material::Dielectric { ref_idx }
    }

    pub fn isotropic(albedo: Texture) -> (m: Material)
        ensures m == (Material::Isotropic { albedo }),
    {
        Material::Isotropic { albedo }
    }

    pub fn diffuse_light(emit: Texture) -> (m: Material)
        ensures m == (Material::DiffuseLight { emit }),
    {
        Material::DiffuseLight { emit }
    }

    /// What the surface emits at the point.
    #[allow(unused_variables)]
    pub fn emitted(&self, u: i64, v: i64, p: &Vec3) -> (c: Color)
        ensures
            c == emitted_spec(*self, *p),
    {
        match self {
            Material::DiffuseLight { emit } => emit.value(u, v, p),
            _ => Color { r: 0, g: 0, b: 0 },
        }
    }

    /// Decides whether and how the incoming ray scatters at the hit
    /// point. Randomness enters only through `rng`; everything the
    /// result can be is pinned by `scatter_ok`.
    pub fn scatter(&self, r: &Ray, point: Vec3, normal: Vec3, rng: &mut rand::rngs::StdRng)
        -> (sc: Option<ScatterRecord>)
        requires
            material_wf(*self),
            ray_wf(*r),
            bounded(point, PMAX as int),
            bounded(normal, 2048),
        ensures
            scatter_ok(*self, *r, point, normal, sc),
            sc is Some ==> ray_wf((sc->0).scattered) && color_le((sc->0).attenuation, 1024),
    {
        match self {
            Material::Lambertian { albedo } => {
                let u = random_in_unit_sphere(rng);
                let dir0 = Vec3 {
                    x: normal.x + u.x,
                    y: normal.y + u.y,
                    z: normal.z + u.z,
                };
                let dir = if dir0.x == 0 && dir0.y == 0 && dir0.z == 0 { u } else { dir0 };
                proof {
                    assert(!(u.x == 0 && u.y == 0 && u.z == 0)) by (nonlinear_arith)
                        requires dot3(u, u) > 0;
                    assert(unit_ball(u) && diffuse_dir(normal, u, dir));
                    lemma_texture_value_le(*albedo, point, UNIT as int);
                }
                Some(ScatterRecord {
                    attenuation: albedo.value(0, 0, &point),
                    scattered: Ray { origin: point, direction: dir },
                })
            },
            Material::Metal { albedo, fuzz } => {
                proof {
                    lemma_dot_bound(r.direction, r.direction, 8192, 8192);
                }
                let uv = Vec3::unit_vector(r.direction);
                let refl = reflect(uv, normal);
                let u = random_in_unit_sphere(rng);
                proof {
                    lemma_mul_bound(*fuzz as int, u.x as int, 1024, 1024);
                    lemma_mul_bound(*fuzz as int, u.y as int, 1024, 1024);
                    lemma_mul_bound(*fuzz as int, u.z as int, 1024, 1024);
                }
                let fx = fdiv((*fuzz as i128) * (u.x as i128), 1024) as i64;
                let fy = fdiv((*fuzz as i128) * (u.y as i128), 1024) as i64;
                let fz = fdiv((*fuzz as i128) * (u.z as i128), 1024) as i64;
                proof {
                    assert(iabs(fx as int) <= 1024 && iabs(fy as int) <= 1024
                        && iabs(fz as int) <= 1024) by (nonlinear_arith)
                        requires
                            1024 * (fx as int) <= (*fuzz as int) * (u.x as int) < 1024 * (fx as int + 1),
                            1024 * (fy as int) <= (*fuzz as int) * (u.y as int) < 1024 * (fy as int + 1),
                            1024 * (fz as int) <= (*fuzz as int) * (u.z as int) < 1024 * (fz as int + 1),
                            iabs((*fuzz as int) * (u.x as int)) <= 1048576,
                            iabs((*fuzz as int) * (u.y as int)) <= 1048576,
                            iabs((*fuzz as int) * (u.z as int)) <= 1048576,
                    ;
                }
                let raw = Vec3 { x: refl.x + fx, y: refl.y + fy, z: refl.z + fz };
                let dir = clamp_dir(&raw);
                proof {
                    lemma_dot_bound(dir, normal, 8192, 2048);
                    assert(metal_dir(r.direction, normal, *fuzz as int, u, dir));
                }
                let d = dir.dot(&normal);
                let nonzero = !(dir.x == 0 && dir.y == 0 && dir.z == 0);
                proof {
                    assert forall|dir2: Vec3|
                        metal_dir(r.direction, normal, *fuzz as int, u, dir2) implies dir2 == dir by {
                        assert(dir2.x == dir.x && dir2.y == dir.y && dir2.z == dir.z);
                    }
                }
                if d > 0 && nonzero {
                    proof {
                        lemma_texture_value_le(*albedo, point, UNIT as int);
                    }
                    Some(ScatterRecord {
                        attenuation: albedo.value(0, 0, &point),
                        scattered: Ray { origin: point, direction: dir },
                    })
                } else {
                    None
                }
            },
            Material::Dielectric { ref_idx } => {
                proof {
                    lemma_dot_bound(r.direction, normal, 8192, 2048);
                    lemma_dot_bound(r.direction, r.direction, 8192, 8192);
                }
                let dn_raw = (&r.direction).dot(&normal);
                let len = (&r.direction).length();
                proof {
                    assert(dot3(r.direction, r.direction) >= 1) by (nonlinear_arith)
                        requires
                            !(r.direction.x == 0 && r.direction.y == 0 && r.direction.z == 0),
                    ;
                    assert(len >= 1) by (nonlinear_arith)
                        requires
                            dot3(r.direction, r.direction) < ((len + 1) as int) * ((len + 1) as int),
                            len >= 0,
                            dot3(r.direction, r.direction) >= 1,
                    ;
                }
                let reflected = reflect(r.direction, normal);
                let outward: Vec3;
                let ni: i64;
                let cos_raw: i64;
                if dn_raw > 0 {
                    outward = Vec3 { x: -normal.x, y: -normal.y, z: -normal.z };
                    ni = *ref_idx;
                    proof {
                        lemma_mul_bound(*ref_idx as int, dn_raw as int, 4096, 50331648);
                    }
                    cos_raw = fdiv((*ref_idx as i128) * (dn_raw as i128), (len as i128) * 1024) as i64;
                } else {
                    outward = normal;
                    let niq = fdiv(1048576, *ref_idx as i128);
                    proof {
                        assert(1 <= niq <= 16384) by (nonlinear_arith)
                            requires
                                (*ref_idx as int) * (niq as int) <= 1048576
                                    < (*ref_idx as int) * (niq as int + 1),
                                256 <= *ref_idx <= 4096,
                        ;
                    }
                    ni = niq as i64;
                    cos_raw = fdiv(-(dn_raw as i128), len as i128) as i64;
                }
                let cosine = clamp64(cos_raw, 0, 1024);
                let refr = refract(r.direction, outward, ni);
                let reflect_prob: i64 = if refr.should_refract {
                    schlick(cosine, *ref_idx)
                } else {
                    1024
                };
                let draw = rand_below(rng, 1024) as i64;
                let raw_dir = if draw < reflect_prob { reflected } else { refr.refracted };
                let clamped = clamp_dir(&raw_dir);
                let dir = if clamped.x == 0 && clamped.y == 0 && clamped.z == 0 {
                    r.direction
                } else {
                    clamped
                };
                let srec = ScatterRecord {
                    attenuation: Color { r: 1024, g: 1024, b: 1024 },
                    scattered: Ray { origin: point, direction: dir },
                };
                proof {
                    assert(outward == if dot3(r.direction, normal) > 0 { neg3(normal) } else {
                        normal
                    });
                    assert(srec.scattered.direction == dir);
                    assert(dielectric_dir(*ref_idx as int, *r, normal, draw as int,
                        srec.scattered.direction));
                    assert(dielectric_draw_ok(*ref_idx as int, *r, normal, draw as int,
                        srec.scattered.direction));
                }
                Some(srec)
            },
            Material::Isotropic { albedo } => {
                let u = random_in_unit_sphere(rng);
                proof {
                    assert(!(u.x == 0 && u.y == 0 && u.z == 0)) by (nonlinear_arith)
                        requires dot3(u, u) > 0;
                    lemma_texture_value_le(*albedo, point, UNIT as int);
                }
                Some(ScatterRecord {
                    attenuation: albedo.value(0, 0, &point),
                    scattered: Ray { origin: point, direction: u },
                })
            },
            Material::DiffuseLight { .. } => None,
        }
    }
}

} // verus!
