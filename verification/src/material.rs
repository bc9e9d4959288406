use crate::fixed::{
    clamp, div_fx, fxdiv, fxmul, lemma_fxdiv_bounded, lemma_sqrt_floor_below, lemma_tdiv_bounded,
    lemma_tdiv_nonincreasing, mul_fx, spec_clamp, sqrt_fx,
};
use crate::hit::{rec_wf, HitRecV, HitRecord};
use crate::ray::{ray_wf, Ray};
use crate::rng::random_scalar;
use crate::ray::RayV;
use crate::vec3::{
    bounded3, lemma_abs_product, lemma_dot_bounded2, lemma_refract_bounded, lemma_reflect_bounded,
    lemma_scale_bounded, lemma_vunit_bounded, spec_unit_sample, vadd, vdot, vlen_sq, vneg,
    vreflect, vrefract, vscale, vunit, Color, Vec3, V3,
};
use rand::rngs::StdRng;
use vstd::prelude::*;

verus! {

/// A color whose channels all lie in the `[0, 1]` albedo domain.
pub open spec fn color01(c: V3) -> bool {
    &&& 0 <= c.x <= 65536
    &&& 0 <= c.y <= 65536
    &&& 0 <= c.z <= 65536
}

/// A diffuse material: scatters in a random direction around the normal
/// and attenuates by its fixed albedo.
#[derive(Clone, Copy, Debug, PartialEq, Eq, Structural)]
pub struct Lambertian {
    pub albedo: Color,
}

/// A reflective material: mirrors the incident direction, perturbed by a
/// fuzz radius in `[0, 1]`.
#[derive(Clone, Copy, Debug, PartialEq, Eq, Structural)]
pub struct Metal {
    pub albedo: Color,
    pub fuzz: i64,
}

/// A refractive material: bends or reflects the incident direction
/// according to its refractive index.
#[derive(Clone, Copy, Debug, PartialEq, Eq, Structural)]
pub struct Dielectric {
    pub ref_idx: i64,
}

/// The closed set of materials a surface can carry.
#[derive(Clone, Copy, Debug, PartialEq, Eq, Structural)]
pub enum Material {
    Lambertian(Lambertian),
    Metal(Metal),
    Dielectric(Dielectric),
}

/// The material's parameters are inside the domains scattering is proved
/// for. The refractive-index window of a quarter to four is the
/// fixed-point arithmetic domain, not a physical constraint: real indices
/// (about one to two and a half) lie well inside it.
pub open spec fn mat_wf(m: Material) -> bool {
    match m {
        Material::Lambertian(l) => color01(l.albedo@),
        Material::Metal(mm) => color01(mm.albedo@) && 0 <= mm.fuzz <= 65536,
        Material::Dielectric(d) => 16384 <= d.ref_idx <= 262144,
    }
}

/// The index ratio a refractive scatter uses: the inverse index when the
/// ray enters the medium (a front face), the index itself when it leaves.
pub open spec fn spec_eta(front_face: bool, ref_idx: int) -> int {
    if front_face {
        fxdiv(65536, ref_idx)
    } else {
        ref_idx
    }
}

/// The total-internal-reflection test for unit incident `u` against the
/// normal, with the cosine clamped at one and the radicand at zero as the
/// scatterer computes them.
pub open spec fn spec_tir(u: V3, normal: V3, eta: int) -> bool {
    let cos_raw = vdot(vneg(u), normal);
    let cos = if cos_raw < 65536 {
        cos_raw
    } else {
        65536
    };
    let cc = fxmul(cos, cos);
    let radicand = if cc > 65536 {
        0
    } else {
        65536 - cc
    };
    fxmul(eta, crate::fixed::fxsqrt(radicand)) > 65536
}

/// One possible successful scatter of `r_in` off the hit `rec` by the
/// material `m`: the scattered ray starts at the hit point, and its
/// direction and the attenuation follow the material's law for some
/// admissible random draw.
pub open spec fn possible_scatter(m: Material, r_in: RayV, rec: HitRecV, att: V3, sc: RayV) -> bool {
    &&& sc.origin == rec.p
    &&& match m {
        Material::Lambertian(l) => {
            &&& att == l.albedo@
            &&& exists|a: int, z: int|
                0 <= a < 411775 && -65536 <= z < 65536 && sc.direction == vadd(
                    rec.normal,
                    #[trigger] spec_unit_sample(a, z),
                )
        },
        Material::Metal(mm) => {
            &&& att == mm.albedo@
            &&& vdot(sc.direction, rec.normal) > 0
            &&& exists|s: V3|
                {
                    &&& #[trigger] vlen_sq(s) < 65536
                    &&& bounded3(s, 65536)
                    &&& sc.direction == vadd(
                        vreflect(vunit(r_in.direction), rec.normal),
                        vscale(s, mm.fuzz as int),
                    )
                }
        },
        Material::Dielectric(d) => {
            let u = vunit(r_in.direction);
            let eta = spec_eta(rec.front_face, d.ref_idx as int);
            &&& att == (V3 { x: 65536int, y: 65536int, z: 65536int })
            &&& (sc.direction == vreflect(u, rec.normal) || sc.direction == vrefract(
                u,
                rec.normal,
                eta,
            ))
            &&& (spec_tir(u, rec.normal, eta) ==> sc.direction == vreflect(u, rec.normal))
        },
    }
}

impl Lambertian {
    /// Build a diffuse material from its albedo.
    pub fn new(albedo: Color) -> (m: Lambertian)
        requires
            color01(albedo@),
        ensures
            m.albedo == albedo,
            mat_wf(Material::Lambertian(m)),
    {
        Lambertian { albedo }
    }
}

impl Metal {
    /// Build a reflective material; the fuzz radius is forced into
    /// `[0, 1]`.
    pub fn new(albedo: Color, fuzz: i64) -> (m: Metal)
        requires
            color01(albedo@),
        ensures
            m.albedo == albedo,
            m.fuzz as int == spec_clamp(fuzz as int, 0, 65536),
            mat_wf(Material::Metal(m)),
    {
        Metal { albedo, fuzz: clamp(fuzz, 0, 65536) }
    }
}

impl Dielectric {
    /// Build a refractive material from its refractive index.
    pub fn new(ref_idx: i64) -> (m: Dielectric)
        requires
            16384 <= ref_idx <= 262144,
        ensures
            m.ref_idx == ref_idx,
            mat_wf(Material::Dielectric(m)),
    {
        Dielectric { ref_idx }
    }
}

impl Lambertian {
    /// Diffuse scattering: the new direction is the normal plus a random
    /// unit-scale vector, the attenuation is the albedo, and the ray is
    /// never absorbed.
    pub fn scatter(&self, _r_in: &Ray, rec: &HitRecord, rng: &mut StdRng) -> (out: Option<
        (Color, Ray),
    >)
        requires
            color01(self.albedo@),
            rec_wf(rec@),
        ensures
            out is Some,
            out matches Some((att, sc)) ==> {
                &&& att@ == self.albedo@
                &&& sc@.origin == rec@.p
                &&& ray_wf(sc@)
                &&& exists|a: int, z: int|
                    0 <= a < 411775 && -65536 <= z < 65536 && sc@.direction == vadd(
                        rec@.normal,
                        #[trigger] spec_unit_sample(a, z),
                    )
            },
    {
        let sample = Vec3::random_unit_vector(rng);
        let scatter_direction = rec.normal.add(sample);
        let scattered = Ray::new(rec.p, scatter_direction);
        proof {
            let (ga, gz) = choose|a: int, z: int|
                0 <= a < 411775 && -65536 <= z < 65536 && sample@ == #[trigger] spec_unit_sample(
                    a,
                    z,
                );
            assert(scattered@.direction == vadd(rec@.normal, spec_unit_sample(ga, gz)));
        }
        Some((self.albedo, scattered))
    }
}

impl Metal {
    /// Reflective scattering: the incident direction is mirrored about the
    /// normal and perturbed by a fuzz-scaled random vector; the ray is
    /// absorbed when the perturbed direction does not leave the surface.
    /// With zero fuzz the scattered direction is exactly the reflection.
    pub fn scatter(&self, r_in: &Ray, rec: &HitRecord, rng: &mut StdRng) -> (out: Option<
        (Color, Ray),
    >)
        requires
            color01(self.albedo@),
            0 <= self.fuzz <= 65536,
            rec_wf(rec@),
            ray_wf(r_in@),
        ensures
            out matches Some((att, sc)) ==> {
                &&& att@ == self.albedo@
                &&& sc@.origin == rec@.p
                &&& ray_wf(sc@)
                &&& vdot(sc@.direction, rec@.normal) > 0
                &&& exists|s: V3|
                    {
                        &&& #[trigger] vlen_sq(s) < 65536
                        &&& bounded3(s, 65536)
                        &&& sc@.direction == vadd(
                            vreflect(vunit(r_in@.direction), rec@.normal),
                            vscale(s, self.fuzz as int),
                        )
                    }
            },
            out is None ==> exists|s: V3|
                {
                    &&& #[trigger] vlen_sq(s) < 65536
                    &&& bounded3(s, 65536)
                    &&& vdot(
                        vadd(
                            vreflect(vunit(r_in@.direction), rec@.normal),
                            vscale(s, self.fuzz as int),
                        ),
                        rec@.normal,
                    ) <= 0
                },
            self.fuzz == 0 ==> {
                let refl = vreflect(vunit(r_in@.direction), rec@.normal);
                match out {
                    Some((att, sc)) => sc@.direction == refl && vdot(refl, rec@.normal) > 0,
                    None => vdot(refl, rec@.normal) <= 0,
                }
            },
    {
        proof {
            lemma_vunit_bounded(r_in@.direction);
        }
        let unit_dir = Vec3::unit_vector(r_in.direction());
        proof {
            lemma_reflect_bounded(unit_dir@, rec@.normal);
        }
        let reflected = Vec3::reflect(&unit_dir, &rec.normal);
        let sample = Vec3::random_in_unit_sphere(rng);
        proof {
            lemma_scale_bounded(sample@, self.fuzz as int, 65536, 65536);
        }
        let fuzzed = sample.scale(self.fuzz);
        let direction = reflected.add(fuzzed);
        proof {
            if self.fuzz == 0 {
                assert(vscale(sample@, 0) == (V3 { x: 0int, y: 0int, z: 0int })) by {
                    assert(sample@.x * 0 == 0);
                    assert(sample@.y * 0 == 0);
                    assert(sample@.z * 0 == 0);
                }
                assert(vadd(vreflect(vunit(r_in@.direction), rec@.normal), V3 { x: 0int, y: 0int, z: 0int })
                    == vreflect(vunit(r_in@.direction), rec@.normal));
            }
        }
        let scattered = Ray::new(rec.p, direction);
        proof {
            assert(scattered@.direction == vadd(
                vreflect(vunit(r_in@.direction), rec@.normal),
                vscale(sample@, self.fuzz as int),
            ));
        }
        if Vec3::dot(&scattered.direction(), &rec.normal) > 0 {
            Some((self.albedo, scattered))
        } else {
            None
        }
    }
}

/// The Schlick approximation of the Fresnel reflectance: the base
/// reflectance at normal incidence plus its complement faded by the fifth
/// power of `1 - cosine`.
pub open spec fn spec_schlick(cosine: int, eta: int) -> int {
    let r0 = fxdiv(65536 - eta, 65536 + eta);
    let r0sq = fxmul(r0, r0);
    let x = 65536 - cosine;
    let x2 = fxmul(x, x);
    let x4 = fxmul(x2, x2);
    let x5 = fxmul(x4, x);
    r0sq + fxmul(65536 - r0sq, x5)
}

impl Dielectric {
    /// The Schlick reflectance used to choose between reflection and
    /// refraction.
    fn schlick(cosine: i64, eta: i64) -> (r: i64)
        requires
            -1572864 <= cosine <= 65536,
            0 <= eta <= 262144,
        ensures
            r as int == spec_schlick(cosine as int, eta as int),
    {
        proof {
            lemma_fxdiv_bounded(65536 - eta as int, 65536 + eta as int, 196608);
        }
        let r0 = div_fx(65536 - eta, 65536 + eta);
        proof {
            lemma_abs_product(r0 as int, r0 as int, 196608, 196608);
            lemma_tdiv_bounded((r0 as int) * (r0 as int), 65536, 196608int * 196608);
            lemma_tdiv_nonincreasing((r0 as int) * (r0 as int), 65536);
            assert(0 <= (r0 as int) * (r0 as int)) by (nonlinear_arith);
        }
        let r0sq = mul_fx(r0, r0);
        let x = 65536 - cosine;
        proof {
            lemma_abs_product(x as int, x as int, 1638400, 1638400);
            lemma_tdiv_bounded((x as int) * (x as int), 65536, 1638400int * 1638400);
            lemma_tdiv_nonincreasing((x as int) * (x as int), 65536);
            assert(0 <= (x as int) * (x as int)) by (nonlinear_arith);
        }
        let x2 = mul_fx(x, x);
        proof {
            lemma_abs_product(x2 as int, x2 as int, 40960000, 40960000);
            lemma_tdiv_bounded((x2 as int) * (x2 as int), 65536, 40960000int * 40960000);
            lemma_tdiv_nonincreasing((x2 as int) * (x2 as int), 65536);
            assert(0 <= (x2 as int) * (x2 as int)) by (nonlinear_arith);
        }
        let x4 = mul_fx(x2, x2);
        proof {
            lemma_abs_product(x4 as int, x as int, 25600000000, 1638400);
            lemma_tdiv_bounded((x4 as int) * (x as int), 65536, 25600000000int * 1638400);
        }
        let x5 = mul_fx(x4, x);
        proof {
            lemma_abs_product(65536 - r0sq as int, x5 as int, 655360, 640000000000);
            lemma_tdiv_bounded(
                (65536 - r0sq as int) * (x5 as int),
                65536,
                655360int * 640000000000,
            );
        }
        r0sq + mul_fx(65536 - r0sq, x5)
    }

    /// Refractive scattering: white attenuation, never absorbed. The ray
    /// reflects under total internal reflection, otherwise reflects with
    /// the Schlick probability and refracts with the remaining one.
    pub fn scatter(&self, r_in: &Ray, rec: &HitRecord, rng: &mut StdRng) -> (out: Option<
        (Color, Ray),
    >)
        requires
            16384 <= self.ref_idx <= 262144,
            rec_wf(rec@),
            ray_wf(r_in@),
        ensures
            out is Some,
            out matches Some((att, sc)) ==> {
                let u = vunit(r_in@.direction);
                let eta = spec_eta(rec@.front_face, self.ref_idx as int);
                &&& att@ == (V3 { x: 65536int, y: 65536int, z: 65536int })
                &&& sc@.origin == rec@.p
                &&& ray_wf(sc@)
                &&& (sc@.direction == vreflect(u, rec@.normal) || sc@.direction == vrefract(
                    u,
                    rec@.normal,
                    eta,
                ))
                &&& (spec_tir(u, rec@.normal, eta) ==> sc@.direction == vreflect(u, rec@.normal))
            },
    {
        let attenuation = Color::new(65536, 65536, 65536);
        proof {
            vstd::arithmetic::div_mod::lemma_div_is_ordered_by_denominator(
                65536int * 65536,
                16384,
                self.ref_idx as int,
            );
            vstd::arithmetic::div_mod::lemma_div_pos_is_pos(65536int * 65536, self.ref_idx as int);
        }
        let etai_over_etat = if rec.front_face {
            div_fx(65536, self.ref_idx)
        } else {
            self.ref_idx
        };
        proof {
            assert(etai_over_etat as int == spec_eta(rec@.front_face, self.ref_idx as int));
            lemma_vunit_bounded(r_in@.direction);
            lemma_reflect_bounded(vunit(r_in@.direction), rec@.normal);
        }
        let unit_direction = Vec3::unit_vector(r_in.direction());
        let neg_unit = unit_direction.neg();
        proof {
            lemma_dot_bounded2(vneg(vunit(r_in@.direction)), rec@.normal, 131072, 262144);
        }
        let cos_raw = Vec3::dot(&neg_unit, &rec.normal);
        let cos_theta = if cos_raw < 65536 {
            cos_raw
        } else {
            65536
        };
        proof {
            lemma_abs_product(cos_theta as int, cos_theta as int, 1572864, 1572864);
            lemma_tdiv_bounded((cos_theta as int) * (cos_theta as int), 65536, 1572864int * 1572864);
            lemma_tdiv_nonincreasing((cos_theta as int) * (cos_theta as int), 65536);
            assert(0 <= (cos_theta as int) * (cos_theta as int)) by (nonlinear_arith);
        }
        let cc = mul_fx(cos_theta, cos_theta);
        let radicand = if cc > 65536 {
            0
        } else {
            65536 - cc
        };
        proof {
            assert((radicand as int) * 65536 < 65537int * 65537) by (nonlinear_arith)
                requires
                    0 <= (radicand as int) <= 65536,
            ;
            lemma_sqrt_floor_below((radicand as int) * 65536, 65537);
        }
        let sin_theta = sqrt_fx(radicand);
        proof {
            lemma_abs_product(etai_over_etat as int, sin_theta as int, 262144, 65536);
            lemma_tdiv_bounded(
                (etai_over_etat as int) * (sin_theta as int),
                65536,
                262144int * 65536,
            );
        }
        let tir = mul_fx(etai_over_etat, sin_theta) > 65536;
        proof {
            assert(tir == spec_tir(
                vunit(r_in@.direction),
                rec@.normal,
                etai_over_etat as int,
            ));
        }
        if tir {
            let reflected = Vec3::reflect(&unit_direction, &rec.normal);
            let scattered = Ray::new(rec.p, reflected);
            return Some((attenuation, scattered));
        }
        let reflect_prob = Dielectric::schlick(cos_theta, etai_over_etat);
        if random_scalar(rng) < reflect_prob {
            let reflected = Vec3::reflect(&unit_direction, &rec.normal);
            let scattered = Ray::new(rec.p, reflected);
            return Some((attenuation, scattered));
        }
        proof {
            lemma_refract_bounded(
                vunit(r_in@.direction),
                rec@.normal,
                etai_over_etat as int,
            );
        }
        let refracted = Vec3::refract(&unit_direction, &rec.normal, etai_over_etat);
        let scattered = Ray::new(rec.p, refracted);
        Some((attenuation, scattered))
    }
}

impl Material {
    /// Scatter an incident ray off a hit of this material. The returned
    /// ray, if any, starts at the hit point and follows the material's
    /// law for some admissible random draw; the attenuation always lies
    /// in the albedo domain; diffuse and refractive materials never
    /// absorb, so only a rough metal can return nothing.
    pub fn scatter(&self, r_in: &Ray, rec: &HitRecord, rng: &mut StdRng) -> (out: Option<
        (Color, Ray),
    >)
        requires
            mat_wf(*self),
            rec_wf(rec@),
            ray_wf(r_in@),
        ensures
            out matches Some((att, sc)) ==> {
                &&& possible_scatter(*self, r_in@, rec@, att@, sc@)
                &&& ray_wf(sc@)
                &&& color01(att@)
            },
            self is Lambertian ==> out is Some,
            self is Dielectric ==> out is Some,
            out is None ==> self is Metal,
    {
        match self {
            Material::Lambertian(l) => l.scatter(r_in, rec, rng),
            Material::Metal(m) => m.scatter(r_in, rec, rng),
            Material::Dielectric(d) => d.scatter(r_in, rec, rng),
        }
    }
}

} // verus!
