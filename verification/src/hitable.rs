//! The primitive tree: spheres, triangles, volumetric media and interior
//! nodes of the bounding-volume hierarchy, with the traversal theorem:
//! querying a node returns a nearest admissible hit of its leaves.

use vstd::prelude::*;
use crate::aabb::{AABB, aabb_wf, slab_hit, strictly_inside, surrounding_bbox, inside_box,
    lemma_inside_slab};
use crate::material::{Material, material_wf};
use crate::math::{fdiv, iabs, isqrt_spec, BMAX, RMAX};
use crate::ratio::{Rat, rat_wf, rat_le, rat_lt, in_open_range, check_open_range,
    lemma_rat_le_trans, lemma_mul_bound};
use crate::ray::{Ray, ray_wf, t_in_window, lemma_window};
use crate::rng::rand_below;
use crate::sphere::{Sphere, sphere_wf, sphere_hit_match, HitData, hitdata_wf};
use crate::texture::Texture;
use crate::triangle::{Triangle, triangle_wf, tri_hit_match};
use crate::vec3::{Vec3, dot3, lemma_dot_bound};

verus! {

pub enum Prim {
    Sphere(Sphere),
    Triangle(Triangle),
    ConstantMedium(ConstantMedium),
    BvhNode(BvhNode),
}

/// A homogeneous scattering volume bounded by another primitive's
/// surface; `density` is `UNIT`-scaled scattering events per world unit.
pub struct ConstantMedium {
    pub boundary: Box<Prim>,
    pub density: i64,
    pub material: Material,
}

/// An interior node: one or two children and the cached union of their
/// bounding boxes.
pub struct BvhNode {
    pub left: Box<Prim>,
    pub right: Option<Box<Prim>>,
    pub bbox: AABB,
}

/// The lower corner of a primitive's padded spatial extent.
pub open spec fn ext_lo(p: Prim) -> (int, int, int)
    decreases p,
{
    match p {
        Prim::Sphere(s) => (
            s.center.x - iabs(s.radius as int) - 1,
            s.center.y - iabs(s.radius as int) - 1,
            s.center.z - iabs(s.radius as int) - 1,
        ),
        Prim::Triangle(t) => (
            crate::triangle::imin3(t.p1.x as int, t.p2.x as int, t.p3.x as int) - 1,
            crate::triangle::imin3(t.p1.y as int, t.p2.y as int, t.p3.y as int) - 1,
            crate::triangle::imin3(t.p1.z as int, t.p2.z as int, t.p3.z as int) - 1,
        ),
        Prim::ConstantMedium(m) => ext_lo(*m.boundary),
        Prim::BvhNode(n) => (n.bbox.min.x as int, n.bbox.min.y as int, n.bbox.min.z as int),
    }
}

/// The upper corner of a primitive's padded spatial extent.
pub open spec fn ext_hi(p: Prim) -> (int, int, int)
    decreases p,
{
    match p {
        Prim::Sphere(s) => (
            s.center.x + iabs(s.radius as int) + 1,
            s.center.y + iabs(s.radius as int) + 1,
            s.center.z + iabs(s.radius as int) + 1,
        ),
        Prim::Triangle(t) => (
            crate::triangle::imax3(t.p1.x as int, t.p2.x as int, t.p3.x as int) + 1,
            crate::triangle::imax3(t.p1.y as int, t.p2.y as int, t.p3.y as int) + 1,
            crate::triangle::imax3(t.p1.z as int, t.p2.z as int, t.p3.z as int) + 1,
        ),
        Prim::ConstantMedium(m) => ext_hi(*m.boundary),
        Prim::BvhNode(n) => (n.bbox.max.x as int, n.bbox.max.y as int, n.bbox.max.z as int),
    }
}

/// The box encloses the primitive's padded extent.
pub open spec fn covers(b: AABB, p: Prim) -> bool {
    let lo = ext_lo(p);
    let hi = ext_hi(p);
    &&& b.min.x <= lo.0 && b.min.y <= lo.1 && b.min.z <= lo.2
    &&& hi.0 <= b.max.x && hi.1 <= b.max.y && hi.2 <= b.max.z
}

/// The exact ray point at `num/den` lies strictly inside the
/// primitive's padded extent on every axis.
pub open spec fn point_within(p: Prim, r: Ray, num: int, den: int) -> bool {
    let lo = ext_lo(p);
    let hi = ext_hi(p);
    &&& lo.0 * den < r.origin.x * den + num * r.direction.x < hi.0 * den
    &&& lo.1 * den < r.origin.y * den + num * r.direction.y < hi.1 * den
    &&& lo.2 * den < r.origin.z * den + num * r.direction.z < hi.2 * den
}

/// Structural well-formedness of the tree: geometry in range, interior
/// boxes well-formed and enclosing their children.
pub open spec fn prim_wf(p: Prim) -> bool
    decreases p,
{
    match p {
        Prim::Sphere(s) => sphere_wf(s),
        Prim::Triangle(t) => triangle_wf(t),
        Prim::ConstantMedium(m) => {
            &&& prim_wf(*m.boundary)
            &&& material_wf(m.material)
            &&& 1 <= m.density <= 1048576
        },
        Prim::BvhNode(n) => {
            &&& prim_wf(*n.left)
            &&& aabb_wf(n.bbox)
            &&& covers(n.bbox, *n.left)
            &&& match n.right {
                Option::Some(rt) => prim_wf(*rt) && covers(n.bbox, *rt),
                Option::None => true,
            }
        },
    }
}

/// The cached boxes are exact: every interior node's box is precisely
/// the union of its children's padded extents (not merely containing
/// them), recursively through the whole tree.
pub open spec fn bbox_exact(p: Prim) -> bool
    decreases p,
{
    match p {
        Prim::BvhNode(n) => {
            &&& bbox_exact(*n.left)
            &&& match n.right {
                Option::Some(rt) => {
                    &&& bbox_exact(*rt)
                    &&& n.bbox.min.x == if ext_lo(*n.left).0 < ext_lo(*rt).0 { ext_lo(*n.left).0 } else { ext_lo(*rt).0 }
                    &&& n.bbox.min.y == if ext_lo(*n.left).1 < ext_lo(*rt).1 { ext_lo(*n.left).1 } else { ext_lo(*rt).1 }
                    &&& n.bbox.min.z == if ext_lo(*n.left).2 < ext_lo(*rt).2 { ext_lo(*n.left).2 } else { ext_lo(*rt).2 }
                    &&& n.bbox.max.x == if ext_hi(*n.left).0 > ext_hi(*rt).0 { ext_hi(*n.left).0 } else { ext_hi(*rt).0 }
                    &&& n.bbox.max.y == if ext_hi(*n.left).1 > ext_hi(*rt).1 { ext_hi(*n.left).1 } else { ext_hi(*rt).1 }
                    &&& n.bbox.max.z == if ext_hi(*n.left).2 > ext_hi(*rt).2 { ext_hi(*n.left).2 } else { ext_hi(*rt).2 }
                },
                Option::None => {
                    &&& n.bbox.min.x == ext_lo(*n.left).0
                    &&& n.bbox.min.y == ext_lo(*n.left).1
                    &&& n.bbox.min.z == ext_lo(*n.left).2
                    &&& n.bbox.max.x == ext_hi(*n.left).0
                    &&& n.bbox.max.y == ext_hi(*n.left).1
                    &&& n.bbox.max.z == ext_hi(*n.left).2
                },
            }
        },
        Prim::ConstantMedium(m) => bbox_exact(*m.boundary),
        _ => true,
    }
}

/// The leaf primitives under `p`, left to right; a medium is a leaf.
pub open spec fn leaves(p: Prim) -> Seq<Prim>
    decreases p,
{
    match p {
        Prim::BvhNode(n) => leaves(*n.left) + match n.right {
            Option::Some(rt) => leaves(*rt),
            Option::None => Seq::empty(),
        },
        _ => seq![p],
    }
}

/// The leaf primitives of a whole list, in order.
pub open spec fn leaves_of_seq(s: Seq<Prim>) -> Seq<Prim>
    decreases s.len(),
{
    if s.len() == 0 {
        Seq::empty()
    } else {
        leaves(s[0]) + leaves_of_seq(s.drop_first())
    }
}

/// What a deterministic leaf (sphere or triangle) pins its hit to.
pub open spec fn det_pins(q: Prim, r: Ray, tmin: Rat, tmax: Rat, hd: HitData) -> bool {
    match q {
        Prim::Sphere(s) => sphere_hit_match(s, r, tmin, tmax, Some(hd)),
        Prim::Triangle(t) => tri_hit_match(t, r, tmin, tmax, Some(hd)),
        _ => false,
    }
}

/// An admissible outcome of querying a leaf: a deterministic leaf's
/// pinned hit, or a medium scatter strictly inside the window and the
/// medium's extent, with the leaf's own material.
pub open spec fn leaf_adm(q: Prim, r: Ray, tmin: Rat, tmax: Rat, hd: HitData, m: Material) -> bool {
    match q {
        Prim::Sphere(s) => sphere_hit_match(s, r, tmin, tmax, Some(hd)) && m == s.material,
        Prim::Triangle(t) => tri_hit_match(t, r, tmin, tmax, Some(hd)) && m == t.material,
        Prim::ConstantMedium(md) => {
            &&& m == md.material
            &&& rat_wf(hd.t)
            &&& in_open_range(hd.t.num as int, hd.t.den as int, tmin, tmax)
            &&& point_within(q, r, hd.t.num as int, hd.t.den as int)
        },
        Prim::BvhNode(_) => false,
    }
}

/// The wide parameter window the medium uses to find its boundary
/// crossings.
pub open spec fn wide_lo_spec() -> Rat {
    Rat { num: -1000i64, den: 1i64 }
}

pub open spec fn wide_hi_spec() -> Rat {
    Rat { num: 1000i64, den: 1i64 }
}

/// The least thousandth strictly above `t`: where the exit search
/// resumes after the entry crossing.
pub open spec fn rat_next_spec(t: Rat) -> Rat {
    Rat { num: ((t.num as int) * 1000 / (t.den as int) + 2) as i64, den: 1000i64 }
}

/// Some leaf of the subtree admits this hit in the window.
pub open spec fn subtree_adm(p: Prim, r: Ray, tmin: Rat, tmax: Rat, hd: HitData) -> bool {
    exists|i: int, m: Material| 0 <= i < leaves(p).len()
        && #[trigger] leaf_adm(leaves(p)[i], r, tmin, tmax, hd, m)
}

/// Some leaf of the subtree admits this hit with this material.
pub open spec fn world_adm(p: Prim, r: Ray, tmin: Rat, tmax: Rat, hd: HitData, m: Material) -> bool {
    exists|i: int| 0 <= i < leaves(p).len()
        && #[trigger] leaf_adm(leaves(p)[i], r, tmin, tmax, hd, m)
}

/// The free-path law of the medium, conditioned on the boundary
/// crossings and the draw: clamp the entry to `max(entry, tmin, 0)` and
/// the exit to `min(exit, tmax)`; refuse an empty span; sample the
/// flight parameter `neg_ln(u) / (density |d|)` on the fixed
/// denominator `2^20`; scatter at `clamped entry + flight` exactly when
/// that parameter stays inside the window, before the clamped exit, and
/// strictly inside the medium's extent.
pub open spec fn medium_sample_ok(p: Prim, density: int, r: Ray, entry: Rat, exit: Rat, u: int,
    tmin: Rat, tmax: Rat, res: Option<HitData>) -> bool {
    let t1a = if rat_lt(entry, tmin) { tmin } else { entry };
    let t2 = if rat_lt(tmax, exit) { tmax } else { exit };
    if !rat_lt(t1a, t2) {
        res is None
    } else {
        let zero = Rat { num: 0i64, den: 1i64 };
        let t1b = if rat_lt(t1a, zero) { zero } else { t1a };
        let t1fn = (t1b.num as int) * 1048576 / (t1b.den as int);
        let len = isqrt_spec(dot3(r.direction, r.direction) as nat) as int;
        let flight = neg_ln_spec(u) * 1024 * 1048576 / (density * len);
        let thn = t1fn + flight;
        if in_open_range(thn, 1048576, tmin, tmax) && thn * t2.den < t2.num * 1048576
            && point_within(p, r, thn, 1048576) {
            &&& res is Some
            &&& (res->0).t.num == thn
            &&& (res->0).t.den == 1048576
            &&& (res->0).p.x == r.origin.x + thn * r.direction.x / 1048576
            &&& (res->0).p.y == r.origin.y + thn * r.direction.y / 1048576
            &&& (res->0).p.z == r.origin.z + thn * r.direction.z / 1048576
            &&& (res->0).normal == (Vec3 { x: 1024i64, y: 0i64, z: 0i64 })
        } else {
            res is None
        }
    }
}

/// A pinned or admissible hit lies strictly inside the window and the
/// leaf's padded extent.
proof fn lemma_adm_bounds(q: Prim, r: Ray, tmin: Rat, tmax: Rat, hd: HitData, m: Material)
    requires
        leaf_adm(q, r, tmin, tmax, hd, m),
    ensures
        rat_wf(hd.t),
        in_open_range(hd.t.num as int, hd.t.den as int, tmin, tmax),
        point_within(q, r, hd.t.num as int, hd.t.den as int),
{
    match q {
        Prim::Sphere(s) => {},
        Prim::Triangle(t) => {},
        Prim::ConstantMedium(md) => {},
        Prim::BvhNode(_) => {},
    }
}

/// Every leaf under a covered primitive is covered too.
proof fn lemma_covers_leaves(p: Prim, b: AABB)
    requires
        prim_wf(p),
        covers(b, p),
    ensures
        forall|i: int| 0 <= i < leaves(p).len() ==> covers(b, #[trigger] leaves(p)[i]),
    decreases p,
{
    match p {
        Prim::BvhNode(n) => {
            assert(covers(b, *n.left));
            lemma_covers_leaves(*n.left, b);
            match n.right {
                Option::Some(rt) => {
                    assert(covers(b, *rt));
                    lemma_covers_leaves(*rt, b);
                    assert forall|i: int| 0 <= i < leaves(p).len() implies
                        covers(b, #[trigger] leaves(p)[i]) by {
                        if i < leaves(*n.left).len() {
                            assert(leaves(p)[i] == leaves(*n.left)[i]);
                        } else {
                            assert(leaves(p)[i] == leaves(*rt)[i - leaves(*n.left).len()]);
                        }
                    }
                },
                Option::None => {
                    assert forall|i: int| 0 <= i < leaves(p).len() implies
                        covers(b, #[trigger] leaves(p)[i]) by {
                        assert(leaves(p)[i] == leaves(*n.left)[i]);
                    }
                },
            }
        },
        _ => {
            assert(leaves(p)[0] == p);
        },
    }
}

/// A hit strictly inside a covered extent and strictly inside the
/// window makes the covering box's slab test succeed.
proof fn lemma_within_slab(q: Prim, b: AABB, r: Ray, tmin: Rat, tmax: Rat, t: Rat)
    requires
        rat_wf(tmin),
        rat_wf(tmax),
        rat_wf(t),
        covers(b, q),
        point_within(q, r, t.num as int, t.den as int),
        in_open_range(t.num as int, t.den as int, tmin, tmax),
    ensures
        slab_hit(b, r, tmin, tmax),
{
    let lo = ext_lo(q);
    let hi = ext_hi(q);
    assert(strictly_inside(b, r, t)) by (nonlinear_arith)
        requires
            t.den > 0,
            b.min.x <= lo.0 && b.min.y <= lo.1 && b.min.z <= lo.2,
            hi.0 <= b.max.x && hi.1 <= b.max.y && hi.2 <= b.max.z,
            lo.0 * t.den < r.origin.x * t.den + t.num * r.direction.x < hi.0 * t.den,
            lo.1 * t.den < r.origin.y * t.den + t.num * r.direction.y < hi.1 * t.den,
            lo.2 * t.den < r.origin.z * t.den + t.num * r.direction.z < hi.2 * t.den,
            strictly_inside(b, r, t) == (
                b.min.x * t.den < r.origin.x * t.den + t.num * r.direction.x < b.max.x * t.den
                && b.min.y * t.den < r.origin.y * t.den + t.num * r.direction.y < b.max.y * t.den
                && b.min.z * t.den < r.origin.z * t.den + t.num * r.direction.z < b.max.z * t.den),
    ;
    assert(rat_lt(tmin, t));
    assert(rat_lt(t, tmax));
    lemma_inside_slab(b, r, tmin, tmax, t);
}

/// A parameter slightly past `t`: the least thousandth above it.
fn rat_next(t: &Rat) -> (r: Rat)
    requires
        rat_wf(*t),
        iabs(t.num as int) <= 1000 * (t.den as int),
    ensures
        rat_wf(r),
        rat_lt(*t, r),
        t_in_window(r),
        r == rat_next_spec(*t),
{
    let q128 = fdiv((t.num as i128) * 1000, t.den as i128);
    proof {
        assert(iabs(q128 as int) <= 1000001
            && (t.num as int) * 1000 < (t.den as int) * (q128 as int + 2)) by (nonlinear_arith)
            requires
                (t.den as int) * (q128 as int) <= (t.num as int) * 1000
                    < (t.den as int) * (q128 as int + 1),
                iabs(t.num as int) <= 1000 * (t.den as int),
                t.den > 0,
        ;
    }
    let q = q128 as i64;
    let r = Rat { num: q + 2, den: 1000 };
    proof {
        assert(r.num as int == (t.num as int) * 1000 / (t.den as int) + 2);
    }
    proof {
        assert(rat_lt(*t, r)) by (nonlinear_arith)
            requires
                (t.num as int) * 1000 < (t.den as int) * ((q + 2) as int),
                r.num == q + 2,
                r.den == 1000,
                t.den > 0,
                rat_lt(*t, r) == (t.num * r.den < r.num * t.den),
        ;
    }
    r
}

/// Floors a parameter onto the fixed denominator `2^20`.
fn rat_fix20(t: &Rat) -> (r: Rat)
    requires
        rat_wf(*t),
        iabs(t.num as int) <= 8388608 * (t.den as int),
    ensures
        rat_wf(r),
        r.den == 1048576,
        iabs(r.num as int) <= 8796093022208,
        r.num as int == (t.num as int) * 1048576 / (t.den as int),
        t.num >= 0 ==> r.num >= 0,
{
    proof {
        lemma_mul_bound(t.num as int, 1048576, RMAX as int, 1048576);
    }
    let q128 = fdiv((t.num as i128) * 1048576, t.den as i128);
    proof {
        assert(iabs(q128 as int) <= 8796093022208) by (nonlinear_arith)
            requires
                (t.den as int) * (q128 as int) <= (t.num as int) * 1048576
                    < (t.den as int) * (q128 as int + 1),
                iabs(t.num as int) <= 8388608 * (t.den as int),
                t.den > 0,
        ;
        assert(t.num >= 0 ==> q128 >= 0) by (nonlinear_arith)
            requires
                (t.num as int) * 1048576 < (t.den as int) * (q128 as int + 1),
                t.den > 0,
        ;
    }
    Rat { num: q128 as i64, den: 1048576 }
}

/// One doubling step of the free-flight logarithm: `UNIT * ln 2 = 710`
/// per doubling until the draw reaches `UNIT`, at most ten times.
pub open spec fn neg_ln_rec(x: int, k: int) -> int
    decreases 10 - k,
{
    if x >= 1024 || k >= 10 {
        0
    } else {
        710 + neg_ln_rec(2 * x, k + 1)
    }
}

/// Roughly `UNIT * ln(UNIT / u)` for a draw `u` in `[1, UNIT]`.
pub open spec fn neg_ln_spec(u: int) -> int {
    neg_ln_rec(u, 0)
}

fn neg_ln(u: i64) -> (nl: i64)
    requires
        1 <= u <= 1024,
    ensures
        nl == neg_ln_spec(u as int),
        0 <= nl <= 7100,
{
    let mut x = u;
    let mut k: i64 = 0;
    let mut acc: i64 = 0;
    while x < 1024 && k < 10
        invariant
            1 <= x <= 2046,
            0 <= k <= 10,
            acc == 710 * k,
            acc + neg_ln_rec(x as int, k as int) == neg_ln_spec(u as int),
        decreases 10 - k,
    {
        x = 2 * x;
        acc = acc + 710;
        k = k + 1;
    }
    acc
}

impl ConstantMedium {
    /// Wraps a boundary primitive into a homogeneous volume whose
    /// scattering material is isotropic with the given texture.
    pub fn new(boundary: Prim, density: i64, texture: Texture) -> (m: ConstantMedium)
        ensures
            m.boundary == Box::new(boundary),
            m.density == density,
            m.material == (Material::Isotropic { albedo: texture }),
    {
        ConstantMedium {
            boundary: Box::new(boundary),
            density,
            material: Material::Isotropic { albedo: texture },
        }
    }
}

impl Prim {
    /// The padded axis-aligned extent of the primitive.
    pub fn bounding_box(&self) -> (b: AABB)
        requires
            prim_wf(*self),
        ensures
            aabb_wf(b),
            b.min.x == ext_lo(*self).0 && b.min.y == ext_lo(*self).1 && b.min.z == ext_lo(*self).2,
            b.max.x == ext_hi(*self).0 && b.max.y == ext_hi(*self).1 && b.max.z == ext_hi(*self).2,
            covers(b, *self),
        decreases *self,
    {
        match self {
            Prim::Sphere(s) => s.bounding_box(),
            Prim::Triangle(t) => t.bounding_box(),
            Prim::ConstantMedium(m) => m.boundary.bounding_box(),
            Prim::BvhNode(n) => n.bbox,
        }
    }

    /// Queries the primitive for the nearest hit in the open window.
    /// The two clauses are the traversal theorem: any returned hit is an
    /// admissible outcome of some leaf, and no deterministic leaf pins a
    /// hit nearer than the returned one (so on a tree without media the
    /// result equals a linear scan's nearest hit up to ties).
    pub fn hit(&self, t_min: &Rat, t_max: &Rat, r: &Ray, rng: &mut rand::rngs::StdRng)
        -> (res: Option<(HitData, &Material)>)
        requires
            prim_wf(*self),
            ray_wf(*r),
            rat_wf(*t_min),
            rat_wf(*t_max),
            t_in_window(*t_min),
            t_in_window(*t_max),
        ensures
            res is Some ==> hitdata_wf((res->0).0) && exists|i: int|
                0 <= i < leaves(*self).len()
                && leaf_adm(#[trigger] leaves(*self)[i], *r, *t_min, *t_max, (res->0).0,
                    *((res->0).1)),
            forall|i: int, hd: HitData|
                #![trigger det_pins(leaves(*self)[i], *r, *t_min, *t_max, hd)]
                0 <= i < leaves(*self).len()
                    && det_pins(leaves(*self)[i], *r, *t_min, *t_max, hd)
                    ==> res is Some && rat_le((res->0).0.t, hd.t),
        decreases *self, 1int,
    {
        match self {
            Prim::Sphere(s) => {
                let res0 = s.hit(t_min, t_max, r);
                proof {
                    assert(leaves(*self) == seq![*self]);
                    assert(leaves(*self)[0] == *self);
                }
                match res0 {
                    Option::Some(h) => {
                        proof {
                            assert(leaf_adm(leaves(*self)[0], *r, *t_min, *t_max, h, s.material));
                        }
                        Some((h, &s.material))
                    },
                    Option::None => None,
                }
            },
            Prim::Triangle(t) => {
                let res0 = t.hit(t_min, t_max, r);
                proof {
                    assert(leaves(*self) == seq![*self]);
                    assert(leaves(*self)[0] == *self);
                }
                match res0 {
                    Option::Some(h) => {
                        proof {
                            assert(leaf_adm(leaves(*self)[0], *r, *t_min, *t_max, h, t.material));
                        }
                        Some((h, &t.material))
                    },
                    Option::None => None,
                }
            },
            Prim::ConstantMedium(md) => {
                proof {
                    assert(leaves(*self) == seq![*self]);
                    assert(leaves(*self)[0] == *self);
                }
                let out = self.medium_hit(md, t_min, t_max, r, rng);
                proof {
                    if out is Some {
                        assert(leaf_adm(leaves(*self)[0], *r, *t_min, *t_max, (out->0).0,
                            *((out->0).1)));
                    }
                }
                out
            },
            Prim::BvhNode(n) => {
                if !n.bbox.hit(r, t_min, t_max) {
                    proof {
                        lemma_covers_leaves(*self, n.bbox);
                        assert forall|i: int, hd: HitData|
                            0 <= i < leaves(*self).len()
                                && #[trigger] det_pins(leaves(*self)[i], *r, *t_min, *t_max, hd)
                            implies false by {
                            let q = leaves(*self)[i];
                            assert(leaf_adm(q, *r, *t_min, *t_max, hd, leaf_material(q)));
                            lemma_adm_bounds(q, *r, *t_min, *t_max, hd, leaf_material(q));
                            lemma_within_slab(q, n.bbox, *r, *t_min, *t_max, hd.t);
                        }
                    }
                    None
                } else {
                    let lres = n.left.hit(t_min, t_max, r, rng);
                    let rres = match &n.right {
                        Option::Some(rt) => rt.hit(t_min, t_max, r, rng),
                        Option::None => None,
                    };
                    let ghost ll = leaves(*n.left);
                    let ghost rl = if n.right is Some {
                        leaves(*n.right->0)
                    } else {
                        Seq::<Prim>::empty()
                    };
                    proof {
                        assert(leaves(*self) == ll + rl);
                        assert forall|i: int| 0 <= i < ll.len() implies
                            #[trigger] leaves(*self)[i] == ll[i] by {}
                        assert forall|i: int| ll.len() <= i < leaves(*self).len() implies
                            #[trigger] leaves(*self)[i] == rl[i - ll.len()] by {}
                    }
                    match (lres, rres) {
                        (Option::Some(lh), Option::Some(rh)) => {
                            let pick_left = lh.0.t.lt(&rh.0.t);
                            let out = if pick_left { lh } else { rh };
                            proof {
                                if pick_left {
                                    assert(rat_le(out.0.t, lh.0.t));
                                } else {
                                    assert(rat_le(out.0.t, lh.0.t));
                                }
                                assert(rat_le(out.0.t, rh.0.t));
                                assert forall|i: int, hd: HitData|
                                    0 <= i < leaves(*self).len()
                                        && #[trigger] det_pins(leaves(*self)[i], *r, *t_min,
                                            *t_max, hd)
                                    implies rat_le(out.0.t, hd.t) by {
                                    lemma_adm_hd_wf(leaves(*self)[i], *r, *t_min, *t_max, hd);
                                    if i < ll.len() {
                                        assert(det_pins(ll[i], *r, *t_min, *t_max, hd));
                                        assert(rat_le(lh.0.t, hd.t));
                                        lemma_rat_le_trans(out.0.t, lh.0.t, hd.t);
                                    } else {
                                        assert(det_pins(rl[i - ll.len()], *r, *t_min, *t_max, hd));
                                        assert(rat_le(rh.0.t, hd.t));
                                        lemma_rat_le_trans(out.0.t, rh.0.t, hd.t);
                                    }
                                }
                            }
                            proof {
                                if pick_left {
                                    let j = choose|j: int| 0 <= j < ll.len()
                                        && leaf_adm(#[trigger] ll[j], *r, *t_min, *t_max, lh.0,
                                            *(lh.1));
                                    assert(leaves(*self)[j] == ll[j]);
                                    assert(leaf_adm(leaves(*self)[j], *r, *t_min, *t_max, out.0,
                                        *(out.1)));
                                } else {
                                    let j = choose|j: int| 0 <= j < rl.len()
                                        && leaf_adm(#[trigger] rl[j], *r, *t_min, *t_max, rh.0,
                                            *(rh.1));
                                    assert(leaves(*self)[ll.len() + j] == rl[j]);
                                    assert(leaf_adm(leaves(*self)[ll.len() + j], *r, *t_min,
                                        *t_max, out.0, *(out.1)));
                                }
                            }
                            Some(out)
                        },
                        (Option::Some(lh), Option::None) => {
                            proof {
                                let j = choose|j: int| 0 <= j < ll.len()
                                    && leaf_adm(#[trigger] ll[j], *r, *t_min, *t_max, lh.0,
                                        *(lh.1));
                                assert(leaves(*self)[j] == ll[j]);
                                assert(leaf_adm(leaves(*self)[j], *r, *t_min, *t_max, lh.0,
                                    *(lh.1)));
                                assert forall|i: int, hd: HitData|
                                    0 <= i < leaves(*self).len()
                                        && #[trigger] det_pins(leaves(*self)[i], *r, *t_min,
                                            *t_max, hd)
                                    implies rat_le(lh.0.t, hd.t) by {
                                    if i < ll.len() {
                                        assert(det_pins(ll[i], *r, *t_min, *t_max, hd));
                                    } else {
                                        assert(det_pins(rl[i - ll.len()], *r, *t_min, *t_max, hd));
                                    }
                                }
                            }
                            Some(lh)
                        },
                        (Option::None, Option::Some(rh)) => {
                            proof {
                                let j = choose|j: int| 0 <= j < rl.len()
                                    && leaf_adm(#[trigger] rl[j], *r, *t_min, *t_max, rh.0,
                                        *(rh.1));
                                assert(leaves(*self)[ll.len() + j] == rl[j]);
                                assert(leaf_adm(leaves(*self)[ll.len() + j], *r, *t_min, *t_max,
                                    rh.0, *(rh.1)));
                                assert forall|i: int, hd: HitData|
                                    0 <= i < leaves(*self).len()
                                        && #[trigger] det_pins(leaves(*self)[i], *r, *t_min,
                                            *t_max, hd)
                                    implies rat_le(rh.0.t, hd.t) by {
                                    if i < ll.len() {
                                        assert(det_pins(ll[i], *r, *t_min, *t_max, hd));
                                    } else {
                                        assert(det_pins(rl[i - ll.len()], *r, *t_min, *t_max, hd));
                                    }
                                }
                            }
                            Some(rh)
                        },
                        (Option::None, Option::None) => {
                            proof {
                                assert forall|i: int, hd: HitData|
                                    0 <= i < leaves(*self).len()
                                        && #[trigger] det_pins(leaves(*self)[i], *r, *t_min,
                                            *t_max, hd)
                                    implies false by {
                                    if i < ll.len() {
                                        assert(det_pins(ll[i], *r, *t_min, *t_max, hd));
                                    } else {
                                        assert(det_pins(rl[i - ll.len()], *r, *t_min, *t_max, hd));
                                    }
                                }
                            }
                            None
                        },
                    }
                }
            },
        }
    }

    /// The volumetric scattering query: find the span where the ray is
    /// inside the boundary, draw a free-flight distance, and scatter
    /// there if it falls short of the exit; every outcome is checked
    /// against the window and the medium's extent.
    fn medium_hit(&self, md: &ConstantMedium, t_min: &Rat, t_max: &Rat, r: &Ray,
        rng: &mut rand::rngs::StdRng) -> (res: Option<(HitData, &Material)>)
        requires
            prim_wf(*self),
            *self == Prim::ConstantMedium(*md),
            ray_wf(*r),
            rat_wf(*t_min),
            rat_wf(*t_max),
            t_in_window(*t_min),
            t_in_window(*t_max),
        ensures
            res is Some ==> {
                &&& hitdata_wf((res->0).0)
                &&& *((res->0).1) == md.material
                &&& (res->0).0.t.num >= 0
                &&& in_open_range((res->0).0.t.num as int, (res->0).0.t.den as int, *t_min, *t_max)
                &&& point_within(*self, *r, (res->0).0.t.num as int, (res->0).0.t.den as int)
                &&& exists|entry: HitData, exit: HitData, u: int| {
                    &&& subtree_adm(*md.boundary, *r, wide_lo_spec(), wide_hi_spec(), entry)
                    &&& subtree_adm(*md.boundary, *r, rat_next_spec(entry.t), wide_hi_spec(), exit)
                    &&& 1 <= u <= 1024
                    &&& medium_sample_ok(*self, md.density as int, *r, entry.t, exit.t, u,
                            *t_min, *t_max, Some((res->0).0))
                }
            },
        decreases *self, 0int,
    {
        let wide_lo = Rat { num: -1000, den: 1 };
        let wide_hi = Rat { num: 1000, den: 1 };
        let h1 = md.boundary.hit(&wide_lo, &wide_hi, r, rng);
        let pr1 = match h1 {
            Option::Some(p) => p,
            Option::None => { return None; },
        };
        let h1d = pr1.0;
        proof {
            lemma_adm_hd_wf_opt(*md.boundary, *r, wide_lo, wide_hi, h1d, *pr1.1);
            lemma_window(wide_lo, wide_hi, h1d.t.num as int, h1d.t.den as int);
            assert(iabs(h1d.t.num as int) <= 1000 * (h1d.t.den as int)) by (nonlinear_arith)
                requires
                    (-1000) * (h1d.t.den as int) < (h1d.t.num as int) * 1
                        && (h1d.t.num as int) * 1 < 1000 * (h1d.t.den as int),
                    h1d.t.den > 0,
            ;
        }
        let bump = rat_next(&h1d.t);
        let h2 = md.boundary.hit(&bump, &wide_hi, r, rng);
        let pr2 = match h2 {
            Option::Some(p) => p,
            Option::None => { return None; },
        };
        let h2d = pr2.0;
        proof {
            lemma_adm_hd_wf_opt(*md.boundary, *r, bump, wide_hi, h2d, *pr2.1);
        }
        let u = (rand_below(rng, 1024) + 1) as i64;
        let sres = self.medium_sample(md, &h1d.t, &h2d.t, u, t_min, t_max, r);
        match sres {
            Option::Some(hd) => {
                proof {
                    assert(bump == rat_next_spec(h1d.t));
                    assert(subtree_adm(*md.boundary, *r, wide_lo, wide_hi, h1d));
                    assert(subtree_adm(*md.boundary, *r, bump, wide_hi, h2d));
                    assert(medium_sample_ok(*self, md.density as int, *r, h1d.t, h2d.t, u as int,
                        *t_min, *t_max, Some(hd)));
                }
                match self {
                    Prim::ConstantMedium(md2) => Some((hd, &md2.material)),
                    _ => None,
                }
            },
            Option::None => None,
        }
    }

    /// The deterministic part of the medium query, as a function of the
    /// boundary crossings and the drawn value: exactly the free-path law
    /// `medium_sample_ok`.
    fn medium_sample(&self, md: &ConstantMedium, entry: &Rat, exit: &Rat, u: i64, t_min: &Rat,
        t_max: &Rat, r: &Ray) -> (res: Option<HitData>)
        requires
            prim_wf(*self),
            *self == Prim::ConstantMedium(*md),
            ray_wf(*r),
            rat_wf(*entry),
            rat_wf(*exit),
            t_in_window(*entry),
            rat_wf(*t_min),
            rat_wf(*t_max),
            t_in_window(*t_min),
            t_in_window(*t_max),
            1 <= u <= 1024,
        ensures
            medium_sample_ok(*self, md.density as int, *r, *entry, *exit, u as int, *t_min,
                *t_max, res),
            res is Some ==> {
                &&& hitdata_wf(res->0)
                &&& (res->0).t.num >= 0
                &&& in_open_range((res->0).t.num as int, (res->0).t.den as int, *t_min, *t_max)
                &&& point_within(*self, *r, (res->0).t.num as int, (res->0).t.den as int)
            },
        decreases *self, 0int,
    {
        let t1a = entry.max(t_min);
        let t2 = exit.min(t_max);
        if !t1a.lt(&t2) {
            return None;
        }
        let zero = Rat { num: 0, den: 1 };
        let t1b = t1a.max(&zero);
        proof {
            assert(iabs(t1b.num as int) <= 8388608 * (t1b.den as int)) by (nonlinear_arith)
                requires
                    t1b == if rat_lt(t1a, zero) { zero } else { t1a },
                    t1a == if rat_lt(*entry, *t_min) { *t_min } else { *entry },
                    iabs(entry.num as int) <= 2048 * (entry.den as int),
                    iabs(t_min.num as int) <= 2048 * (t_min.den as int),
                    zero.num == 0 && zero.den == 1,
                    t1b.den > 0,
            ;
        }
        proof {
            assert(t1b.num >= 0) by (nonlinear_arith)
                requires
                    t1b == if rat_lt(t1a, (Rat { num: 0i64, den: 1i64 })) {
                        (Rat { num: 0i64, den: 1i64 })
                    } else {
                        t1a
                    },
                    !rat_lt(t1a, (Rat { num: 0i64, den: 1i64 })) ==> t1a.num * 1 >= 0 * t1a.den,
                    t1a.den > 0,
            ;
        }
        let t1f = rat_fix20(&t1b);
        let nl = neg_ln(u);
        proof {
            lemma_dot_bound(r.direction, r.direction, 8192, 8192);
        }
        let len = (&r.direction).length();
        proof {
            assert(dot3(r.direction, r.direction) >= 1) by (nonlinear_arith)
                requires
                    !(r.direction.x == 0 && r.direction.y == 0 && r.direction.z == 0),
            ;
            assert(len >= 1) by (nonlinear_arith)
                requires
                    dot3(r.direction, r.direction) < ((len + 1) as int) * ((len + 1) as int),
                    len >= 0,
                    dot3(r.direction, r.direction) >= 1,
            ;
            assert(len < 16384) by (nonlinear_arith)
                requires
                    (len as int) * (len as int) <= dot3(r.direction, r.direction),
                    dot3(r.direction, r.direction) <= 201326592,
                    len >= 0,
            ;
            assert(1 <= (md.density as int) * (len as int) <= 0x4_0000_0000_0000int)
                by (nonlinear_arith)
                requires 1 <= md.density <= 1048576, 1 <= len < 16384,
            ;
        }
        let dden = md.density * len;
        let dt = Rat { num: nl * 1024, den: dden };
        proof {
            assert(iabs(dt.num as int) <= 8388608 * (dt.den as int)) by (nonlinear_arith)
                requires 0 <= nl <= 7100, dt.num == nl * 1024, dt.den == dden, dden >= 1;
        }
        let dtf = rat_fix20(&dt);
        proof {
            assert(iabs((t1f.num + dtf.num) as int) <= RMAX) by (nonlinear_arith)
                requires
                    iabs(t1f.num as int) <= 8796093022208 && iabs(dtf.num as int) <= 8796093022208,
                    RMAX == 0x1000_0000_0000_0000,
            ;
        }
        let th = Rat { num: t1f.num + dtf.num, den: 1048576 };
        if !check_open_range(th.num, th.den, t_min, t_max) {
            return None;
        }
        if !th.lt(&t2) {
            return None;
        }
        proof {
            lemma_window(*t_min, *t_max, th.num as int, th.den as int);
        }
        let b = self.bounding_box();
        if !inside_box(&b, r, &th) {
            return None;
        }
        let p = r.point_at_parameter(&th);
        Some(HitData { t: th, p, normal: Vec3 { x: 1024, y: 0, z: 0 } })
    }
}

/// The material a leaf hands out with its hits.
pub open spec fn leaf_material(p: Prim) -> Material
    decreases p,
{
    match p {
        Prim::Sphere(s) => s.material,
        Prim::Triangle(t) => t.material,
        Prim::ConstantMedium(m) => m.material,
        Prim::BvhNode(n) => leaf_material(*n.left),
    }
}

/// A pinned deterministic hit has a well-formed parameter.
proof fn lemma_adm_hd_wf(q: Prim, r: Ray, tmin: Rat, tmax: Rat, hd: HitData)
    requires
        det_pins(q, r, tmin, tmax, hd),
    ensures
        rat_wf(hd.t),
{
}

/// Any admissible hit from a subtree has a windowed, well-formed
/// parameter inside the query window.
proof fn lemma_adm_hd_wf_opt(p: Prim, r: Ray, tmin: Rat, tmax: Rat, hd: HitData, m: Material)
    requires
        exists|i: int| 0 <= i < leaves(p).len()
            && leaf_adm(#[trigger] leaves(p)[i], r, tmin, tmax, hd, m),
    ensures
        rat_wf(hd.t),
        in_open_range(hd.t.num as int, hd.t.den as int, tmin, tmax),
{
    let i = choose|i: int| 0 <= i < leaves(p).len()
        && leaf_adm(#[trigger] leaves(p)[i], r, tmin, tmax, hd, m);
    lemma_adm_bounds(leaves(p)[i], r, tmin, tmax, hd, m);
}

/// The leaves of a concatenation are the concatenation of the leaves.
proof fn lemma_leaves_append(s1: Seq<Prim>, s2: Seq<Prim>)
    ensures
        leaves_of_seq(s1 + s2) == leaves_of_seq(s1) + leaves_of_seq(s2),
    decreases s1.len(),
{
    if s1.len() == 0 {
        assert(s1 + s2 =~= s2);
        assert(leaves_of_seq(s1) + leaves_of_seq(s2) =~= leaves_of_seq(s2));
    } else {
        lemma_leaves_append(s1.drop_first(), s2);
        assert((s1 + s2).drop_first() =~= s1.drop_first() + s2);
        assert((s1 + s2)[0] == s1[0]);
        assert((s1 + s2).len() > 0);
        assert(leaves_of_seq(s1 + s2) =~= leaves_of_seq(s1) + leaves_of_seq(s2));
    }
}

/// The box corner of the primitive along the chosen axis, the sort key
/// of the construction.
fn axis_key(p: &Prim, axis: u64) -> (k: i64)
    requires
        prim_wf(*p),
{
    let b = p.bounding_box();
    if axis == 0 {
        b.min.x
    } else if axis == 1 {
        b.min.y
    } else {
        b.min.z
    }
}

/// Insertion sort by the box corner along the axis. The contract keeps
/// the multiset of primitives; the ordering itself only shapes the tree.
fn sort_by_axis(list: &mut Vec<Prim>, axis: u64)
    requires
        forall|i: int| 0 <= i < old(list)@.len() ==> prim_wf(#[trigger] old(list)@[i])
            && bbox_exact(#[trigger] old(list)@[i]),
    ensures
        final(list)@.to_multiset() == old(list)@.to_multiset(),
        final(list)@.len() == old(list)@.len(),
        forall|i: int| 0 <= i < final(list)@.len() ==> prim_wf(#[trigger] final(list)@[i])
            && bbox_exact(#[trigger] final(list)@[i]),
{
    proof {
        broadcast use vstd::seq_lib::group_to_multiset_ensures;
        broadcast use vstd::seq_lib::to_multiset_insert;
    }
    let ghost orig = list@;
    let mut idx: usize = 1;
    while idx < list.len()
        invariant
            1 <= idx,
            list@.to_multiset() == orig.to_multiset(),
            list@.len() == orig.len(),
            forall|i: int| 0 <= i < list@.len() ==> prim_wf(#[trigger] list@[i])
                && bbox_exact(#[trigger] list@[i]),
        decreases list@.len() - idx,
    {
        let mut j: usize = idx;
        loop
            invariant
                j <= idx < list@.len(),
                list@.to_multiset() == orig.to_multiset(),
                list@.len() == orig.len(),
                forall|i: int| 0 <= i < list@.len() ==> prim_wf(#[trigger] list@[i])
                    && bbox_exact(#[trigger] list@[i]),
            decreases j,
        {
            if j == 0 {
                break;
            }
            let kj = axis_key(&list[j], axis);
            let kp = axis_key(&list[j - 1], axis);
            if !(kj < kp) {
                break;
            }
            let ghost before = list@;
            let x = list.remove(j);
            let ghost mid = list@;
            list.insert(j - 1, x);
            proof {
                broadcast use vstd::seq_lib::group_to_multiset_ensures;
                broadcast use vstd::seq_lib::to_multiset_insert;
                assert(before.contains(x));
                assert(before.to_multiset().count(x) > 0);
                assert(mid.to_multiset() =~= before.to_multiset().remove(x));
                assert(list@.to_multiset() =~= mid.to_multiset().insert(x));
                assert(list@.to_multiset() =~= before.to_multiset());
                assert forall|i: int| 0 <= i < list@.len() implies
                    prim_wf(#[trigger] list@[i]) && bbox_exact(#[trigger] list@[i]) by {
                    if i < j - 1 {
                        assert(list@[i] == before[i]);
                    } else if i == j - 1 {
                        assert(list@[i] == before[j as int]);
                    } else if i <= j {
                        assert(list@[i] == before[i - 1]);
                    } else {
                        assert(list@[i] == before[i]);
                    }
                }
            }
            j = j - 1;
        }
        idx = idx + 1;
    }
}

impl BvhNode {
    /// Builds the tree over a non-empty list: sort along a random axis
    /// by each primitive's box corner, then split at the median count
    /// and recurse. The leaves of the result are exactly the input
    /// primitives (as the leaves of some permutation of the list).
    pub fn new(list: Vec<Prim>, rng: &mut rand::rngs::StdRng) -> (node: BvhNode)
        requires
            list@.len() >= 1,
            forall|i: int| 0 <= i < list@.len() ==> prim_wf(#[trigger] list@[i])
                && bbox_exact(#[trigger] list@[i]),
        ensures
            prim_wf(Prim::BvhNode(node)),
            bbox_exact(Prim::BvhNode(node)),
            exists|perm: Seq<Prim>| perm.to_multiset() == list@.to_multiset()
                && leaves(Prim::BvhNode(node)) == leaves_of_seq(perm),
        decreases list@.len(),
    {
        let ghost input = list@;
        let mut list = list;
        let axis = rand_below(rng, 3);
        sort_by_axis(&mut list, axis);
        let ghost sorted = list@;
        if list.len() == 1 {
            let hitable = list.remove(0);
            let bbox = hitable.bounding_box();
            let node = BvhNode { left: Box::new(hitable), right: None, bbox };
            proof {
                assert(covers(bbox, hitable));
                assert(sorted.drop_first().len() == 0);
                assert(leaves_of_seq(sorted.drop_first()) =~= Seq::<Prim>::empty());
                assert(sorted[0] == hitable);
                assert(leaves(Prim::BvhNode(node)) =~= leaves_of_seq(sorted));
            }
            node
        } else if list.len() == 2 {
            let right = list.remove(1);
            let left = list.remove(0);
            let lb = left.bounding_box();
            let rb = right.bounding_box();
            let bbox = surrounding_bbox(lb, rb);
            let node = BvhNode {
                left: Box::new(left),
                right: Some(Box::new(right)),
                bbox,
            };
            proof {
                let d1 = sorted.drop_first();
                assert(d1.len() == 1);
                assert(d1.drop_first().len() == 0);
                assert(leaves_of_seq(d1.drop_first()) =~= Seq::<Prim>::empty());
                assert(d1[0] == right);
                assert(sorted[0] == left);
                assert(leaves_of_seq(d1) =~= leaves(right) + leaves_of_seq(d1.drop_first()));
                assert(leaves_of_seq(sorted) =~= leaves(left) + leaves_of_seq(d1));
                assert(leaves(Prim::BvhNode(node)) =~= leaves_of_seq(sorted));
            }
            node
        } else {
            let length = list.len();
            let right_list = list.split_off(length / 2);
            proof {
                assert forall|i: int| 0 <= i < list@.len() implies
                    prim_wf(#[trigger] list@[i]) && bbox_exact(#[trigger] list@[i]) by {
                    assert(list@[i] == sorted[i]);
                }
                assert forall|i: int| 0 <= i < right_list@.len() implies
                    prim_wf(#[trigger] right_list@[i]) by {
                    assert(right_list@[i] == sorted[i + (length / 2) as int]);
                }
            }
            let ghost lh = list@;
            let ghost rh = right_list@;
            let lnode = BvhNode::new(list, rng);
            let rnode = BvhNode::new(right_list, rng);
            let left = Prim::BvhNode(lnode);
            let right = Prim::BvhNode(rnode);
            let lb = left.bounding_box();
            let rb = right.bounding_box();
            let bbox = surrounding_bbox(lb, rb);
            let node = BvhNode {
                left: Box::new(left),
                right: Some(Box::new(right)),
                bbox,
            };
            proof {
                let pl = choose|pl: Seq<Prim>| pl.to_multiset() == lh.to_multiset()
                    && leaves(left) == leaves_of_seq(pl);
                let pr = choose|pr: Seq<Prim>| pr.to_multiset() == rh.to_multiset()
                    && leaves(right) == leaves_of_seq(pr);
                lemma_leaves_append(pl, pr);
                vstd::seq_lib::lemma_multiset_commutative(pl, pr);
                vstd::seq_lib::lemma_multiset_commutative(lh, rh);
                assert(lh + rh =~= sorted);
                assert(leaves(Prim::BvhNode(node)) =~= leaves_of_seq(pl + pr));
                assert((pl + pr).to_multiset() =~= input.to_multiset());
            }
            node
        }
    }
}

/// Every leaf of a well-formed tree is well-formed.
pub proof fn lemma_leaves_wf(p: Prim)
    requires
        prim_wf(p),
    ensures
        forall|i: int| 0 <= i < leaves(p).len() ==> prim_wf(#[trigger] leaves(p)[i]),
    decreases p,
{
    match p {
        Prim::BvhNode(n) => {
            lemma_leaves_wf(*n.left);
            let ll = leaves(*n.left);
            match n.right {
                Option::Some(rt) => {
                    lemma_leaves_wf(*rt);
                    assert forall|i: int| 0 <= i < leaves(p).len() implies
                        prim_wf(#[trigger] leaves(p)[i]) by {
                        if i < ll.len() {
                            assert(leaves(p)[i] == ll[i]);
                        } else {
                            assert(leaves(p)[i] == leaves(*rt)[i - ll.len()]);
                        }
                    }
                },
                Option::None => {
                    assert forall|i: int| 0 <= i < leaves(p).len() implies
                        prim_wf(#[trigger] leaves(p)[i]) by {
                        assert(leaves(p)[i] == ll[i]);
                    }
                },
            }
        },
        _ => {
            assert(leaves(p)[0] == p);
        },
    }
}

/// The material handed back with an admissible hit is well-formed.
pub proof fn lemma_adm_material_wf(p: Prim, r: Ray, tmin: Rat, tmax: Rat, hd: HitData, m: Material)
    requires
        prim_wf(p),
        exists|i: int| 0 <= i < leaves(p).len()
            && leaf_adm(#[trigger] leaves(p)[i], r, tmin, tmax, hd, m),
    ensures
        material_wf(m),
{
    lemma_leaves_wf(p);
    let i = choose|i: int| 0 <= i < leaves(p).len()
        && leaf_adm(#[trigger] leaves(p)[i], r, tmin, tmax, hd, m);
    let q = leaves(p)[i];
    match q {
        Prim::Sphere(s) => {},
        Prim::Triangle(t) => {},
        Prim::ConstantMedium(md) => {},
        Prim::BvhNode(_) => {},
    }
}

/// Free-flight monotonicity: for one and the same draw and ray, a denser
/// medium samples a scattering parameter no farther along the ray, so as
/// the density grows the scatter moves toward the entry point, and as it
/// vanishes the sampled span outgrows any boundary span.
pub proof fn lemma_flight_monotone(nl: int, len: int, d1: int, d2: int)
    requires
        0 <= nl,
        1 <= len,
        1 <= d1 <= d2,
    ensures
        rat_le(
            Rat { num: (nl * 1024) as i64, den: (d2 * len) as i64 },
            Rat { num: (nl * 1024) as i64, den: (d1 * len) as i64 },
        ) || !(nl * 1024 <= 0x1000_0000_0000_0000 && d2 * len <= 0x1000_0000_0000_0000),
{
    if nl * 1024 <= 0x1000_0000_0000_0000 && d2 * len <= 0x1000_0000_0000_0000 {
        assert((nl * 1024) * (d1 * len) <= (nl * 1024) * (d2 * len)) by (nonlinear_arith)
            requires 0 <= nl, 1 <= len, 1 <= d1 <= d2;
        assert(0 <= d1 * len <= d2 * len) by (nonlinear_arith)
            requires 1 <= len, 1 <= d1 <= d2;
        assert(((nl * 1024) as i64) as int == nl * 1024
            && ((d1 * len) as i64) as int == d1 * len
            && ((d2 * len) as i64) as int == d2 * len) by (nonlinear_arith)
            requires
                0 <= nl * 1024 <= 0x1000_0000_0000_0000,
                0 <= d1 * len <= d2 * len,
                d2 * len <= 0x1000_0000_0000_0000,
        ;
    }
}

} // verus!
