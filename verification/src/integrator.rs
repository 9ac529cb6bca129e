//! The recursive radiance estimator: one noisy color sample per call,
//! following the scatter chain to the depth limit.

use vstd::prelude::*;
use crate::color::{Color, color_le, tint_channel, CLIMIT};
use crate::hitable::{Prim, prim_wf, leaves, leaf_adm, det_pins, world_adm,
    lemma_adm_material_wf};
use crate::material::{Material, ScatterRecord, emitted_spec, scatter_ok};
use crate::math::{iabs, PMAX};
use crate::ratio::Rat;
use crate::ray::{Ray, ray_wf};
use crate::sphere::HitData;
use crate::texture::lemma_texture_value_le;
use crate::vec3::bounded;

verus! {

/// The lower end of every radiance query: hits nearer than a thousandth
/// of a unit are ignored, the self-intersection guard.
pub open spec fn query_tmin() -> Rat {
    Rat { num: 1i64, den: 1000i64 }
}

/// The upper end of every radiance query: the world of interest ends
/// fifty units out.
pub open spec fn query_tmax() -> Rat {
    Rat { num: 50i64, den: 1i64 }
}

/// The estimator equation, conditioned on whatever hit and scatter the
/// randomness produced. Either no deterministic leaf pins a hit in the
/// query window and the sample is black (the background absorbs), or
/// some leaf admits the hit and the sample is the material's emission —
/// alone when the path is absorbed, capped at depth 50, or leaves the
/// world region — plus the attenuation-tinted recursive sample of an
/// admissible scatter otherwise.
pub open spec fn color_outcome(world: Prim, r: Ray, depth: u32, c: Color) -> bool
    decreases 50 - depth, 1int,
{
    ||| (c == (Color { r: 0i64, g: 0i64, b: 0i64 })
        && !(exists|i: int, hd: HitData| 0 <= i < leaves(world).len()
            && #[trigger] det_pins(leaves(world)[i], r, query_tmin(), query_tmax(), hd)))
    ||| (exists|hd: HitData, m: Material| #[trigger] world_adm(world, r, query_tmin(),
            query_tmax(), hd, m) && hit_outcome(world, r, depth, hd, m, c))
}

/// What the sample can be once a hit with material `m` came back:
/// emission alone (absorption, the depth cap, or a point outside the
/// world region), or emission plus the attenuation-tinted recursive
/// sample of an admissible scatter.
pub open spec fn hit_outcome(world: Prim, r: Ray, depth: u32, hd: HitData, m: Material,
    c: Color) -> bool
    decreases 50 - depth, 0int,
{
    ||| c == emitted_spec(m, hd.p)
    ||| (depth < 50 && exists|sc: ScatterRecord, rec: Color|
        #![trigger scatter_ok(m, r, hd.p, hd.normal, Some(sc)),
            tint_channel(sc.attenuation.r as int, rec.r as int)] {
        &&& scatter_ok(m, r, hd.p, hd.normal, Some(sc))
        &&& color_outcome(world, sc.scattered, (depth + 1) as u32, rec)
        &&& c.r == emitted_spec(m, hd.p).r + tint_channel(sc.attenuation.r as int, rec.r as int)
        &&& c.g == emitted_spec(m, hd.p).g + tint_channel(sc.attenuation.g as int, rec.g as int)
        &&& c.b == emitted_spec(m, hd.p).b + tint_channel(sc.attenuation.b as int, rec.b as int)
    })
}

/// One radiance sample for the ray against the scene root. Emission is
/// added at every bounce, attenuation is multiplied along the path, and
/// the recursion never passes depth 50, so the sample is finite: each
/// channel is non-negative and at most `51 - depth` times the
/// brightness cap; and the sample satisfies the estimator equation
/// `color_outcome` for the outcomes the randomness produced.
pub fn color(r: &Ray, world: &Prim, depth: u32, rng: &mut rand::rngs::StdRng) -> (c: Color)
    requires
        prim_wf(*world),
        ray_wf(*r),
        depth <= 50,
    ensures
        0 <= c.r && 0 <= c.g && 0 <= c.b,
        c.r <= (51 - depth) * (CLIMIT as int),
        c.g <= (51 - depth) * (CLIMIT as int),
        c.b <= (51 - depth) * (CLIMIT as int),
        color_outcome(*world, *r, depth, c),
    decreases 50 - depth,
{
    let t_min = Rat { num: 1, den: 1000 };
    let t_max = Rat { num: 50, den: 1 };
    proof {
        assert(t_min == query_tmin());
        assert(t_max == query_tmax());
    }
    let hit = world.hit(&t_min, &t_max, r, rng);
    match hit {
        Option::None => {
            proof {
                assert forall|i: int, hd: HitData|
                    !(0 <= i < leaves(*world).len()
                        && #[trigger] det_pins(leaves(*world)[i], *r, query_tmin(), query_tmax(),
                            hd)) by {
                    if 0 <= i < leaves(*world).len()
                        && det_pins(leaves(*world)[i], *r, query_tmin(), query_tmax(), hd) {
                        assert(det_pins(leaves(*world)[i], *r, t_min, t_max, hd));
                        assert(false);
                    }
                }
                assert(!(exists|i: int, hd: HitData| 0 <= i < leaves(*world).len()
                    && #[trigger] det_pins(leaves(*world)[i], *r, query_tmin(), query_tmax(),
                        hd)));
            }
            let out = Color::black();
            proof {
                assert(out == (Color { r: 0i64, g: 0i64, b: 0i64 }));
                assert(color_outcome(*world, *r, depth, out));
            }
            out
        },
        Option::Some(pr) => {
            let h = pr.0;
            let material = pr.1;
            proof {
                lemma_adm_material_wf(*world, *r, t_min, t_max, h, *material);
                let i = choose|i: int| 0 <= i < leaves(*world).len()
                    && leaf_adm(leaves(*world)[i], *r, t_min, t_max, h, *material);
                assert(leaf_adm(leaves(*world)[i], *r, query_tmin(), query_tmax(), h, *material));
                assert(world_adm(*world, *r, query_tmin(), query_tmax(), h, *material));
            }
            let emitted = material.emitted(0, 0, &h.p);
            proof {
                if *material is DiffuseLight {
                    lemma_texture_value_le(material->DiffuseLight_emit, h.p, CLIMIT as int);
                }
                assert(color_le(emitted, CLIMIT as int));
            }
            let in_world = h.p.x >= -PMAX && h.p.x <= PMAX && h.p.y >= -PMAX && h.p.y <= PMAX
                && h.p.z >= -PMAX && h.p.z <= PMAX;
            if depth < 50 && in_world {
                let sc = material.scatter(r, h.p, h.normal, rng);
                match sc {
                    Option::Some(srec) => {
                        let rec = color(&srec.scattered, world, depth + 1, rng);
                        let tinted = srec.attenuation.tint(&rec);
                        let out = emitted.add(&tinted);
                        proof {
                            assert(scatter_ok(*material, *r, h.p, h.normal, Some(srec)));
                            assert(color_outcome(*world, srec.scattered, (depth + 1) as u32, rec));
                            assert(out.r == emitted_spec(*material, h.p).r
                                + tint_channel(srec.attenuation.r as int, rec.r as int));
                            assert(out.g == emitted_spec(*material, h.p).g
                                + tint_channel(srec.attenuation.g as int, rec.g as int));
                            assert(out.b == emitted_spec(*material, h.p).b
                                + tint_channel(srec.attenuation.b as int, rec.b as int));
                            assert(hit_outcome(*world, *r, depth, h, *material, out));
                            assert(color_outcome(*world, *r, depth, out));
                        }
                        out
                    },
                    Option::None => {
                        proof {
                            assert(hit_outcome(*world, *r, depth, h, *material, emitted));
                            assert(color_outcome(*world, *r, depth, emitted));
                        }
                        emitted
                    },
                }
            } else {
                proof {
                    assert(hit_outcome(*world, *r, depth, h, *material, emitted));
                    assert(color_outcome(*world, *r, depth, emitted));
                }
                emitted
            }
        },
    }
}

} // verus!
