use crate::fixed::{
    clamp, div_fx, fxdiv, fxmul, fxsqrt, lemma_sqrt_floor_below, lemma_tdiv_exact,
    lemma_tdiv_mono, lemma_tdiv_nonincreasing, mul_fx, spec_clamp, sqrt_fx, tdiv, DIV_LIM, TWO_PI,
};
use crate::rng::{random_scalar, random_scalar_range, random_u64};
use rand::rngs::StdRng;
use vstd::prelude::*;
use vstd::string::StringExecFns;

verus! {

/// The mathematical model of a vector: three unbounded fixed-point scalars.
pub ghost struct V3 {
    pub x: int,
    pub y: int,
    pub z: int,
}

/// All three components of `v` lie in `[-m, m]`.
pub open spec fn bounded3(v: V3, m: int) -> bool {
    &&& -m <= v.x <= m
    &&& -m <= v.y <= m
    &&& -m <= v.z <= m
}

/// Componentwise sum.
pub open spec fn vadd(a: V3, b: V3) -> V3 {
    V3 { x: a.x + b.x, y: a.y + b.y, z: a.z + b.z }
}

/// Componentwise difference.
pub open spec fn vsub(a: V3, b: V3) -> V3 {
    V3 { x: a.x - b.x, y: a.y - b.y, z: a.z - b.z }
}

/// Componentwise negation.
pub open spec fn vneg(a: V3) -> V3 {
    V3 { x: -a.x, y: -a.y, z: -a.z }
}

/// Componentwise fixed-point product.
pub open spec fn vmul(a: V3, b: V3) -> V3 {
    V3 { x: fxmul(a.x, b.x), y: fxmul(a.y, b.y), z: fxmul(a.z, b.z) }
}

/// The vector scaled by the scalar `s`.
pub open spec fn vscale(a: V3, s: int) -> V3 {
    V3 { x: fxmul(a.x, s), y: fxmul(a.y, s), z: fxmul(a.z, s) }
}

/// The vector divided by the scalar `s`.
pub open spec fn vdivs(a: V3, s: int) -> V3 {
    V3 { x: fxdiv(a.x, s), y: fxdiv(a.y, s), z: fxdiv(a.z, s) }
}

/// The fixed-point dot product: the rescaled sum of the exact products.
pub open spec fn vdot(a: V3, b: V3) -> int {
    tdiv(a.x * b.x + a.y * b.y + a.z * b.z, 65536)
}

/// The fixed-point cross product.
pub open spec fn vcross(a: V3, b: V3) -> V3 {
    V3 {
        x: fxmul(a.y, b.z) - fxmul(a.z, b.y),
        y: fxmul(a.z, b.x) - fxmul(a.x, b.z),
        z: fxmul(a.x, b.y) - fxmul(a.y, b.x),
    }
}

/// The squared length of a vector.
pub open spec fn vlen_sq(a: V3) -> int {
    vdot(a, a)
}

/// The length of a vector.
pub open spec fn vlen(a: V3) -> int {
    fxsqrt(vlen_sq(a))
}

/// The vector rescaled to unit length; the zero vector when its length
/// rounds down to zero (a defensive guard against dividing by zero).
pub open spec fn vunit(a: V3) -> V3 {
    if vlen(a) == 0 {
        V3 { x: 0, y: 0, z: 0 }
    } else {
        vdivs(a, vlen(a))
    }
}

/// The mirror reflection of `v` about the normal `n`.
pub open spec fn vreflect(v: V3, n: V3) -> V3 {
    vsub(v, vscale(n, 2 * vdot(v, n)))
}

/// The refracted direction for unit incident `uv`, unit normal `n` and
/// index ratio `eta`, with the radicand clamped at zero (a defensive guard
/// against a negative square-root argument).
pub open spec fn vrefract(uv: V3, n: V3, eta: int) -> V3 {
    let cos_theta = vdot(vneg(uv), n);
    let parallel = vscale(vadd(uv, vscale(n, cos_theta)), eta);
    let k = vlen_sq(parallel);
    let radicand = if k > 65536 {
        0
    } else {
        65536 - k
    };
    vadd(parallel, vscale(n, -fxsqrt(radicand)))
}

/// A 3-vector of fixed-point scalars, used as a point, a direction or a
/// color.
#[derive(Clone, Copy, Debug, PartialEq, Eq, Structural)]
pub struct Vec3 {
    pub x: i64,
    pub y: i64,
    pub z: i64,
}

impl View for Vec3 {
    type V = V3;

    open spec fn view(&self) -> V3 {
        V3 { x: self.x as int, y: self.y as int, z: self.z as int }
    }
}

/// Squares and pairwise products of components this large still fit the
/// fixed-point multiplier (`2^38`).
pub const VLIM: i64 = 274877906944;

/// The bound for unit-scale directions and normals (`2^20` raw units).
pub const ULIM: i64 = 1048576;

impl Vec3 {
    /// Build a vector from its three components.
    pub fn new(x: i64, y: i64, z: i64) -> (r: Vec3)
        ensures
            r@ == (V3 { x: x as int, y: y as int, z: z as int }),
    {
        Vec3 { x, y, z }
    }

    /// The first component.
    pub fn x(&self) -> (r: i64)
        ensures
            r as int == self@.x,
    {
        self.x
    }

    /// The second component.
    pub fn y(&self) -> (r: i64)
        ensures
            r as int == self@.y,
    {
        self.y
    }

    /// The third component.
    pub fn z(&self) -> (r: i64)
        ensures
            r as int == self@.z,
    {
        self.z
    }

    /// The component selected by `index`, in order `x`, `y`, `z`.
    pub fn index(&self, index: usize) -> (r: i64)
        requires
            index < 3,
        ensures
            index == 0 ==> r as int == self@.x,
            index == 1 ==> r as int == self@.y,
            index == 2 ==> r as int == self@.z,
    {
        if index == 0 {
            self.x
        } else if index == 1 {
            self.y
        } else {
            self.z
        }
    }

    /// Componentwise sum.
    pub fn add(self, other: Vec3) -> (r: Vec3)
        requires
            bounded3(self@, 0x1fffffffffffffff),
            bounded3(other@, 0x1fffffffffffffff),
        ensures
            r@ == vadd(self@, other@),
    {
        Vec3 { x: self.x + other.x, y: self.y + other.y, z: self.z + other.z }
    }

    /// Componentwise difference.
    pub fn sub(self, other: Vec3) -> (r: Vec3)
        requires
            bounded3(self@, 0x1fffffffffffffff),
            bounded3(other@, 0x1fffffffffffffff),
        ensures
            r@ == vsub(self@, other@),
    {
        Vec3 { x: self.x - other.x, y: self.y - other.y, z: self.z - other.z }
    }

    /// Componentwise negation.
    pub fn neg(self) -> (r: Vec3)
        requires
            bounded3(self@, 0x7ffffffffffffffe),
        ensures
            r@ == vneg(self@),
    {
        Vec3 { x: -self.x, y: -self.y, z: -self.z }
    }

    /// Componentwise fixed-point product.
    pub fn mul(self, other: Vec3) -> (r: Vec3)
        requires
            bounded3(self@, VLIM as int),
            bounded3(other@, VLIM as int),
        ensures
            r@ == vmul(self@, other@),
    {
        proof {
            lemma_comp_products(self@, other@);
        }
        Vec3 {
            x: mul_fx(self.x, other.x),
            y: mul_fx(self.y, other.y),
            z: mul_fx(self.z, other.z),
        }
    }

    /// The vector scaled by `s`.
    pub fn scale(self, s: i64) -> (r: Vec3)
        requires
            bounded3(self@, VLIM as int),
            -VLIM <= s <= VLIM,
        ensures
            r@ == vscale(self@, s as int),
    {
        proof {
            lemma_comp_products(self@, V3 { x: s as int, y: s as int, z: s as int });
        }
        Vec3 { x: mul_fx(self.x, s), y: mul_fx(self.y, s), z: mul_fx(self.z, s) }
    }

    /// The vector divided by the scalar `s`.
    pub fn div(self, s: i64) -> (r: Vec3)
        requires
            s != 0,
            bounded3(self@, DIV_LIM as int),
        ensures
            r@ == vdivs(self@, s as int),
    {
        Vec3 { x: div_fx(self.x, s), y: div_fx(self.y, s), z: div_fx(self.z, s) }
    }

    /// The fixed-point dot product of `u` and `v`.
    pub fn dot(u: &Vec3, v: &Vec3) -> (r: i64)
        requires
            bounded3(u@, VLIM as int),
            bounded3(v@, VLIM as int),
        ensures
            r as int == vdot(u@, v@),
    {
        proof {
            lemma_comp_products(u@, v@);
        }
        let p: i128 = (u.x as i128) * (v.x as i128) + (u.y as i128) * (v.y as i128) + (u.z
            as i128) * (v.z as i128);
        let q: i128 = p / 65536;
        proof {
            lemma_tdiv_exact(3458764513820540928int, 65536);
            lemma_tdiv_exact(-3458764513820540928int, 65536);
            lemma_tdiv_mono(p as int, 3458764513820540928int * 65536, 65536);
            lemma_tdiv_mono((-3458764513820540928int) * 65536, p as int, 65536);
        }
        q as i64
    }

    /// The fixed-point cross product of `u` and `v`.
    pub fn cross(u: &Vec3, v: &Vec3) -> (r: Vec3)
        requires
            bounded3(u@, VLIM as int),
            bounded3(v@, VLIM as int),
        ensures
            r@ == vcross(u@, v@),
    {
        proof {
            lemma_comp_products(u@, v@);
            lemma_comp_products(v@, u@);
        }
        Vec3 {
            x: mul_fx(u.y, v.z) - mul_fx(u.z, v.y),
            y: mul_fx(u.z, v.x) - mul_fx(u.x, v.z),
            z: mul_fx(u.x, v.y) - mul_fx(u.y, v.x),
        }
    }

    /// The squared length of the vector.
    pub fn length_squared(&self) -> (r: i64)
        requires
            bounded3(self@, VLIM as int),
        ensures
            r as int == vlen_sq(self@),
            0 <= r,
    {
        proof {
            lemma_vlen_sq_nonneg(self@);
        }
        Vec3::dot(self, self)
    }

    /// The length of the vector.
    pub fn length(&self) -> (r: i64)
        requires
            bounded3(self@, VLIM as int),
        ensures
            r as int == vlen(self@),
            0 <= r,
    {
        let lsq = self.length_squared();
        sqrt_fx(lsq)
    }

    /// The vector rescaled to unit length, or the zero vector when the
    /// length rounds down to zero.
    pub fn unit_vector(v: Vec3) -> (r: Vec3)
        requires
            bounded3(v@, VLIM as int),
        ensures
            r@ == vunit(v@),
    {
        let len = v.length();
        if len == 0 {
            Vec3 { x: 0, y: 0, z: 0 }
        } else {
            v.div(len)
        }
    }

    /// The mirror reflection of `v` about the normal `n`.
    pub fn reflect(v: &Vec3, n: &Vec3) -> (r: Vec3)
        requires
            bounded3(v@, ULIM as int),
            bounded3(n@, ULIM as int),
        ensures
            r@ == vreflect(v@, n@),
    {
        proof {
            lemma_dot_bounded(v@, n@, 1048576);
        }
        let s = Vec3::dot(v, n);
        let scaled = n.scale(2 * s);
        proof {
            lemma_scale_bounded(n@, 2 * (s as int), 1048576, 100663296);
        }
        v.sub(scaled)
    }

    /// The refracted direction for unit incident `uv` and unit normal `n`,
    /// with index ratio `eta`.
    pub fn refract(uv: &Vec3, n: &Vec3, etai_over_etat: i64) -> (r: Vec3)
        requires
            bounded3(uv@, ULIM as int),
            bounded3(n@, ULIM as int),
            0 <= etai_over_etat <= ULIM,
        ensures
            r@ == vrefract(uv@, n@, etai_over_etat as int),
    {
        let cos_theta = Vec3::dot(&uv.neg(), n);
        proof {
            lemma_dot_bounded(vneg(uv@), n@, 1048576);
            lemma_scale_bounded(n@, cos_theta as int, 1048576, 50331648);
        }
        let shifted = uv.add(n.scale(cos_theta));
        proof {
            lemma_scale_bounded(shifted@, etai_over_etat as int, 806354944, 1048576);
        }
        let parallel = shifted.scale(etai_over_etat);
        let k = parallel.length_squared();
        let radicand = if k > 65536 {
            0
        } else {
            65536 - k
        };
        let root = sqrt_fx(radicand);
        proof {
            assert(radicand as int <= 65536);
            assert((65536int * 65536) < 65537int * 65537) by (nonlinear_arith);
            lemma_sqrt_floor_below((radicand as int) * 65536, 65537);
            lemma_scale_bounded(n@, -(root as int), 1048576, 65537);
        }
        parallel.add(n.scale(-root))
    }
}

/// The point of the unit sphere picked by azimuth `a` and height `z`:
/// the analytic reparametrization, evaluated in fixed point.
pub open spec fn spec_unit_sample(a: int, z: int) -> V3 {
    let zz = fxmul(z, z);
    let radicand = if zz > 65536 {
        0
    } else {
        65536 - zz
    };
    let rxy = fxsqrt(radicand);
    V3 { x: fxmul(rxy, crate::fixed::spec_cos(a)), y: fxmul(rxy, crate::fixed::spec_sin(a)), z: z }
}

impl Vec3 {
    /// A vector with three uniform random components in `[0, 1)`.
    pub fn random(rng: &mut StdRng) -> (r: Vec3)
        ensures
            bounded3(r@, 65536),
            0 <= r@.x && 0 <= r@.y && 0 <= r@.z,
    {
        let x = random_scalar(rng);
        let y = random_scalar(rng);
        let z = random_scalar(rng);
        Vec3 { x, y, z }
    }

    /// A vector with three uniform random components in `[min, max)`.
    pub fn random_range(rng: &mut StdRng, min: i64, max: i64) -> (r: Vec3)
        requires
            min <= max,
            max - min <= 140737488355327,
        ensures
            min <= r@.x <= max && min <= r@.y <= max && min <= r@.z <= max,
            min < max ==> r@.x < max && r@.y < max && r@.z < max,
    {
        let x = random_scalar_range(rng, min, max);
        let y = random_scalar_range(rng, min, max);
        let z = random_scalar_range(rng, min, max);
        Vec3 { x, y, z }
    }

    /// A random vector strictly inside the unit sphere, by rejection
    /// sampling. The number of draws is capped; if every draw is rejected
    /// (vanishingly unlikely), a fixed interior point is returned so that
    /// the function still terminates.
    pub fn random_in_unit_sphere(rng: &mut StdRng) -> (r: Vec3)
        ensures
            bounded3(r@, 65536),
            vlen_sq(r@) < 65536,
    {
        let mut tries: u32 = 0;
        while tries < 64
            invariant
                true,
            decreases 64 - tries,
        {
            let p = Vec3::random_range(rng, -65536, 65536);
            if p.length_squared() < 65536 {
                return p;
            }
            tries = tries + 1;
        }
        let fallback = Vec3 { x: 32768, y: 0, z: 0 };
        proof {
            assert(vlen_sq(fallback@) == tdiv(32768int * 32768 + 0 * 0 + 0 * 0, 65536));
            assert(32768int * 32768 + 0 * 0 + 0 * 0 == 16384int * 65536) by (nonlinear_arith);
            lemma_tdiv_exact(16384int, 65536);
        }
        fallback
    }

    /// A random vector on (close to) the unit sphere, drawn by the analytic
    /// reparametrization: a uniform azimuth in `[0, 2 pi)` and a uniform
    /// height in `[-1, 1)`.
    pub fn random_unit_vector(rng: &mut StdRng) -> (r: Vec3)
        ensures
            bounded3(r@, 131072),
            exists|a: int, z: int|
                0 <= a < 411775 && -65536 <= z < 65536 && r@ == #[trigger] spec_unit_sample(a, z),
    {
        let a = random_scalar_range(rng, 0, TWO_PI);
        let z = random_scalar_range(rng, -65536, 65536);
        proof {
            lemma_abs_product(z as int, z as int, 65536, 65536);
            lemma_tdiv_mono((z as int) * (z as int), 65536int * 65536, 65536);
            lemma_tdiv_exact(65536int, 65536);
            lemma_tdiv_nonincreasing((z as int) * (z as int), 65536);
            assert(0 <= (z as int) * (z as int)) by (nonlinear_arith);
        }
        let zz = mul_fx(z, z);
        let radicand = if zz > 65536 {
            0
        } else {
            65536 - zz
        };
        let rxy = sqrt_fx(radicand);
        proof {
            assert((radicand as int) * 65536 < 65537int * 65537) by (nonlinear_arith)
                requires
                    0 <= radicand as int <= 65536,
            ;
            lemma_sqrt_floor_below((radicand as int) * 65536, 65537);
        }
        let cosv = crate::fixed::cos_fx(a);
        let sinv = crate::fixed::sin_fx(a);
        proof {
            lemma_abs_product(rxy as int, cosv as int, 65536, 131072);
            lemma_abs_product(rxy as int, sinv as int, 65536, 131072);
            lemma_tdiv_mono((rxy as int) * (cosv as int), 131072int * 65536, 65536);
            lemma_tdiv_mono((-131072int) * 65536, (rxy as int) * (cosv as int), 65536);
            lemma_tdiv_mono((rxy as int) * (sinv as int), 131072int * 65536, 65536);
            lemma_tdiv_mono((-131072int) * 65536, (rxy as int) * (sinv as int), 65536);
            lemma_tdiv_exact(131072int, 65536);
            lemma_tdiv_exact(-131072int, 65536);
        }
        let x = mul_fx(rxy, cosv);
        let y = mul_fx(rxy, sinv);
        let r = Vec3 { x, y, z };
        proof {
            assert(r@ == spec_unit_sample(a as int, z as int));
        }
        r
    }

    /// A random vector inside the unit sphere, flipped into the hemisphere
    /// of `normal`.
    pub fn random_in_hemisphere(rng: &mut StdRng, normal: &Vec3) -> (r: Vec3)
        requires
            bounded3(normal@, VLIM as int),
        ensures
            bounded3(r@, 65536),
            vlen_sq(r@) < 65536,
            vdot(r@, normal@) >= 0,
            exists|s: V3|
                {
                    &&& #[trigger] vlen_sq(s) < 65536
                    &&& bounded3(s, 65536)
                    &&& r@ == (if vdot(s, normal@) > 0 {
                        s
                    } else {
                        vneg(s)
                    })
                },
    {
        let in_unit_sphere = Vec3::random_in_unit_sphere(rng);
        proof {
            lemma_vlen_sq_neg(in_unit_sphere@);
            lemma_vdot_neg_left(in_unit_sphere@, normal@);
        }
        if Vec3::dot(&in_unit_sphere, normal) > 0 {
            in_unit_sphere
        } else {
            in_unit_sphere.neg()
        }
    }

    /// A random vector strictly inside the unit disk of the `x`-`y` plane,
    /// by rejection sampling with the same capped retries as the sphere
    /// sampler.
    pub fn random_in_unit_disk(rng: &mut StdRng) -> (r: Vec3)
        ensures
            bounded3(r@, 65536),
            vlen_sq(r@) < 65536,
            r@.z == 0,
    {
        let mut tries: u32 = 0;
        while tries < 64
            invariant
                true,
            decreases 64 - tries,
        {
            let x = random_scalar_range(rng, -65536, 65536);
            let y = random_scalar_range(rng, -65536, 65536);
            let p = Vec3 { x, y, z: 0 };
            if p.length_squared() < 65536 {
                return p;
            }
            tries = tries + 1;
        }
        let fallback = Vec3 { x: 32768, y: 0, z: 0 };
        proof {
            assert(vlen_sq(fallback@) == tdiv(32768int * 32768 + 0 * 0 + 0 * 0, 65536));
            assert(32768int * 32768 + 0 * 0 + 0 * 0 == 16384int * 65536) by (nonlinear_arith);
            lemma_tdiv_exact(16384int, 65536);
        }
        fallback
    }
}

/// Negating a vector keeps its squared length.
pub proof fn lemma_vlen_sq_neg(a: V3)
    ensures
        vlen_sq(vneg(a)) == vlen_sq(a),
{
    assert((-a.x) * (-a.x) == a.x * a.x) by (nonlinear_arith);
    assert((-a.y) * (-a.y) == a.y * a.y) by (nonlinear_arith);
    assert((-a.z) * (-a.z) == a.z * a.z) by (nonlinear_arith);
}

/// Componentwise products of two vectors bounded by `VLIM` fit the
/// fixed-point multiplier.
proof fn lemma_comp_products(a: V3, b: V3)
    requires
        bounded3(a, 274877906944),
        bounded3(b, 274877906944),
    ensures
        -75557863725914323419136 <= a.x * b.x <= 75557863725914323419136,
        -75557863725914323419136 <= a.y * b.y <= 75557863725914323419136,
        -75557863725914323419136 <= a.z * b.z <= 75557863725914323419136,
        -75557863725914323419136 <= a.y * b.z <= 75557863725914323419136,
        -75557863725914323419136 <= a.z * b.y <= 75557863725914323419136,
        -75557863725914323419136 <= a.z * b.x <= 75557863725914323419136,
        -75557863725914323419136 <= a.x * b.z <= 75557863725914323419136,
        -75557863725914323419136 <= a.x * b.y <= 75557863725914323419136,
        -75557863725914323419136 <= a.y * b.x <= 75557863725914323419136,
{
    lemma_abs_product(a.x, b.x, 274877906944, 274877906944);
    lemma_abs_product(a.y, b.y, 274877906944, 274877906944);
    lemma_abs_product(a.z, b.z, 274877906944, 274877906944);
    lemma_abs_product(a.y, b.z, 274877906944, 274877906944);
    lemma_abs_product(a.z, b.y, 274877906944, 274877906944);
    lemma_abs_product(a.z, b.x, 274877906944, 274877906944);
    lemma_abs_product(a.x, b.z, 274877906944, 274877906944);
    lemma_abs_product(a.x, b.y, 274877906944, 274877906944);
    lemma_abs_product(a.y, b.x, 274877906944, 274877906944);
}

/// A product of two bounded numbers is bounded by the product of bounds.
pub proof fn lemma_abs_product(a: int, b: int, m: int, n: int)
    requires
        -m <= a <= m,
        -n <= b <= n,
        0 <= m,
        0 <= n,
    ensures
        -(m * n) <= a * b <= m * n,
{
    assert(-(m * n) <= a * b <= m * n) by (nonlinear_arith)
        requires
            -m <= a <= m,
            -n <= b <= n,
            0 <= m,
            0 <= n,
    ;
}

/// A dot product of vectors bounded by `m` and `n` is bounded by
/// `3 m n / ONE`.
pub proof fn lemma_dot_bounded2(a: V3, b: V3, m: int, n: int)
    requires
        bounded3(a, m),
        bounded3(b, n),
        0 <= m,
        0 <= n,
    ensures
        -tdiv(3 * (m * n), 65536) <= vdot(a, b) <= tdiv(3 * (m * n), 65536),
{
    lemma_abs_product(a.x, b.x, m, n);
    lemma_abs_product(a.y, b.y, m, n);
    lemma_abs_product(a.z, b.z, m, n);
    assert(3 * (m * n) == m * n + m * n + m * n) by (nonlinear_arith);
    lemma_tdiv_mono(a.x * b.x + a.y * b.y + a.z * b.z, 3 * (m * n), 65536);
    lemma_tdiv_mono(-(3 * (m * n)), a.x * b.x + a.y * b.y + a.z * b.z, 65536);
    lemma_tdiv_nonincreasing(3 * (m * n), 65536);
    assert(0 <= 3 * (m * n)) by (nonlinear_arith)
        requires
            0 <= m,
            0 <= n,
    ;
}

/// A dot product of vectors bounded by `m` is bounded by `3 m^2 / ONE`.
pub proof fn lemma_dot_bounded(a: V3, b: V3, m: int)
    requires
        bounded3(a, m),
        bounded3(b, m),
        0 <= m,
    ensures
        -tdiv(3 * (m * m), 65536) <= vdot(a, b) <= tdiv(3 * (m * m), 65536),
{
    lemma_dot_bounded2(a, b, m, m);
}

/// Negating the first argument negates the dot product exactly.
pub proof fn lemma_vdot_neg_left(a: V3, b: V3)
    ensures
        vdot(vneg(a), b) == -vdot(a, b),
{
    assert((-a.x) * b.x == -(a.x * b.x)) by (nonlinear_arith);
    assert((-a.y) * b.y == -(a.y * b.y)) by (nonlinear_arith);
    assert((-a.z) * b.z == -(a.z * b.z)) by (nonlinear_arith);
    crate::fixed::lemma_tdiv_neg(a.x * b.x + a.y * b.y + a.z * b.z, 65536);
}

/// Negating the second argument negates the dot product exactly.
pub proof fn lemma_vdot_neg(a: V3, b: V3)
    ensures
        vdot(a, vneg(b)) == -vdot(a, b),
{
    assert(a.x * (-b.x) == -(a.x * b.x)) by (nonlinear_arith);
    assert(a.y * (-b.y) == -(a.y * b.y)) by (nonlinear_arith);
    assert(a.z * (-b.z) == -(a.z * b.z)) by (nonlinear_arith);
    crate::fixed::lemma_tdiv_neg(a.x * b.x + a.y * b.y + a.z * b.z, 65536);
}

/// Scaling a bounded vector by a bounded scalar keeps every component
/// within the rescaled product of the bounds.
pub proof fn lemma_scale_bounded(a: V3, s: int, m: int, n: int)
    requires
        bounded3(a, m),
        -n <= s <= n,
        0 <= m,
        0 <= n,
    ensures
        bounded3(vscale(a, s), tdiv(m * n, 65536)),
        0 <= tdiv(m * n, 65536),
{
    lemma_abs_product(a.x, s, m, n);
    lemma_abs_product(a.y, s, m, n);
    lemma_abs_product(a.z, s, m, n);
    assert(0 <= m * n) by (nonlinear_arith)
        requires
            0 <= m,
            0 <= n,
    ;
    lemma_tdiv_mono(a.x * s, m * n, 65536);
    lemma_tdiv_mono(-(m * n), a.x * s, 65536);
    lemma_tdiv_mono(a.y * s, m * n, 65536);
    lemma_tdiv_mono(-(m * n), a.y * s, 65536);
    lemma_tdiv_mono(a.z * s, m * n, 65536);
    lemma_tdiv_mono(-(m * n), a.z * s, 65536);
    lemma_tdiv_nonincreasing(m * n, 65536);
}

/// A squared length is never negative.
pub proof fn lemma_vlen_sq_nonneg(a: V3)
    ensures
        0 <= vlen_sq(a),
{
    assert(0 <= a.x * a.x + a.y * a.y + a.z * a.z) by (nonlinear_arith);
    lemma_tdiv_nonincreasing(a.x * a.x + a.y * a.y + a.z * a.z, 65536);
}

/// A unit vector's components stay within twice `ONE`: when the length
/// does not round down to zero it is at least `ONE / 256`, and no
/// component exceeds the length by more than `256` raw units.
pub proof fn lemma_vunit_bounded(a: V3)
    requires
        bounded3(a, VLIM as int),
    ensures
        bounded3(vunit(a), 131072),
{
    let lsq = vlen_sq(a);
    lemma_vlen_sq_nonneg(a);
    let len = vlen(a);
    if len != 0 {
        crate::fixed::lemma_sqrt_floor(lsq * 65536);
        if lsq == 0 {
            assert(len == 0);
        }
        assert(lsq >= 1);
        if len + 1 <= 256 {
            assert((len + 1) * (len + 1) <= 256 * 256) by (nonlinear_arith)
                requires
                    0 <= len + 1 <= 256,
            ;
        }
        assert(len >= 256);
        let sum = a.x * a.x + a.y * a.y + a.z * a.z;
        vstd::arithmetic::div_mod::lemma_fundamental_div_mod(sum, 65536);
        assert(sum <= lsq * 65536 + 65535);
        assert(0 <= a.x * a.x && 0 <= a.y * a.y && 0 <= a.z * a.z) by (nonlinear_arith);
        lemma_unit_comp(a.x, sum, lsq, len);
        lemma_unit_comp(a.y, sum, lsq, len);
        lemma_unit_comp(a.z, sum, lsq, len);
    }
}

/// One component of the unit vector stays within twice `ONE`.
proof fn lemma_unit_comp(c: int, sum: int, lsq: int, len: int)
    requires
        c * c <= sum,
        sum <= lsq * 65536 + 65535,
        lsq * 65536 < (len + 1) * (len + 1),
        256 <= len,
    ensures
        -131072 <= fxdiv(c, len) <= 131072,
{
    assert(c * c < (len + 256) * (len + 256)) by (nonlinear_arith)
        requires
            c * c <= lsq * 65536 + 65535,
            lsq * 65536 < (len + 1) * (len + 1),
            256 <= len,
    ;
    assert(-(len + 256) < c < len + 256) by (nonlinear_arith)
        requires
            c * c < (len + 256) * (len + 256),
            0 < len + 256,
    ;
    assert(c * 65536 <= (len + 256) * 65536);
    assert((len + 256) * 65536 <= 131072 * len);
    lemma_tdiv_exact(131072int, len);
    lemma_tdiv_mono(c * 65536, 131072 * len, len);
    lemma_tdiv_mono((-131072) * len, c * 65536, len);
    assert((-131072) * len == -(131072 * len)) by (nonlinear_arith);
}

/// A cross product of bounded vectors is bounded by twice the rescaled
/// product of the bounds.
pub proof fn lemma_cross_bounded(a: V3, b: V3, m: int, n: int)
    requires
        bounded3(a, m),
        bounded3(b, n),
        0 <= m,
        0 <= n,
    ensures
        bounded3(vcross(a, b), 2 * tdiv(m * n, 65536)),
        0 <= tdiv(m * n, 65536),
{
    assert(0 <= m * n) by (nonlinear_arith)
        requires
            0 <= m,
            0 <= n,
    ;
    lemma_tdiv_nonincreasing(m * n, 65536);
    lemma_cross_term(a.y, b.z, m, n);
    lemma_cross_term(a.z, b.y, m, n);
    lemma_cross_term(a.z, b.x, m, n);
    lemma_cross_term(a.x, b.z, m, n);
    lemma_cross_term(a.x, b.y, m, n);
    lemma_cross_term(a.y, b.x, m, n);
}

/// One rescaled product of bounded scalars is bounded.
proof fn lemma_cross_term(x: int, y: int, m: int, n: int)
    requires
        -m <= x <= m,
        -n <= y <= n,
        0 <= m,
        0 <= n,
    ensures
        -tdiv(m * n, 65536) <= fxmul(x, y) <= tdiv(m * n, 65536),
{
    lemma_abs_product(x, y, m, n);
    lemma_tdiv_mono(x * y, m * n, 65536);
    lemma_tdiv_mono(-(m * n), x * y, 65536);
    crate::fixed::lemma_tdiv_neg(m * n, 65536);
}

/// A reflection of a unit-scale vector about a normal-scale vector stays
/// within the direction bounds.
pub proof fn lemma_reflect_bounded(v: V3, n: V3)
    requires
        bounded3(v, 131072),
        bounded3(n, 262144),
    ensures
        bounded3(vreflect(v, n), 12713984),
{
    lemma_dot_bounded2(v, n, 131072, 262144);
    lemma_scale_bounded(n, 2 * vdot(v, n), 262144, 3145728);
}

/// A refraction of a unit-scale vector stays within the direction bounds.
pub proof fn lemma_refract_bounded(uv: V3, n: V3, eta: int)
    requires
        bounded3(uv, 131072),
        bounded3(n, 262144),
        0 <= eta <= 262144,
    ensures
        bounded3(vrefract(uv, n, eta), 25952256),
{
    let cos_theta = vdot(vneg(uv), n);
    lemma_dot_bounded2(vneg(uv), n, 131072, 262144);
    lemma_scale_bounded(n, cos_theta, 262144, 1572864);
    let shifted = vadd(uv, vscale(n, cos_theta));
    lemma_scale_bounded(shifted, eta, 6422528, 262144);
    let parallel = vscale(shifted, eta);
    let k = vlen_sq(parallel);
    lemma_vlen_sq_nonneg(parallel);
    let radicand = if k > 65536 {
        0int
    } else {
        65536 - k
    };
    assert(radicand * 65536 < 65537int * 65537) by (nonlinear_arith)
        requires
            0 <= radicand <= 65536,
    ;
    crate::fixed::lemma_sqrt_floor(radicand * 65536);
    crate::fixed::lemma_sqrt_floor_below(radicand * 65536, 65537);
    lemma_scale_bounded(n, -fxsqrt(radicand), 262144, 65536);
}

/// A point or direction is also written `Point3` where that reads better.
pub type Point3 = Vec3;

/// An RGB color: a vector whose components are the three radiance
/// channels, kept in the same fixed-point scale.
#[derive(Clone, Copy, Debug, PartialEq, Eq, Structural)]
pub struct Color(pub Vec3);

impl View for Color {
    type V = V3;

    open spec fn view(&self) -> V3 {
        self.0@
    }
}

/// The decimal digit `d` as a character.
pub open spec fn digit_char(d: int) -> char {
    if d == 0 {
        '0'
    } else if d == 1 {
        '1'
    } else if d == 2 {
        '2'
    } else if d == 3 {
        '3'
    } else if d == 4 {
        '4'
    } else if d == 5 {
        '5'
    } else if d == 6 {
        '6'
    } else if d == 7 {
        '7'
    } else if d == 8 {
        '8'
    } else {
        '9'
    }
}

/// The decimal rendering of a non-negative number.
pub open spec fn dec_str(n: int) -> Seq<char>
    decreases n,
{
    if n <= 9 {
        seq![digit_char(n)]
    } else {
        dec_str(n / 10).push(digit_char(n % 10))
    }
}

/// One radiance channel finalized into its pixel value: averaged over the
/// samples, gamma-corrected, clamped to `[0, 0.999]` and mapped to
/// `[0, 255]`.
pub open spec fn spec_channel(v: int, n: int) -> int {
    tdiv(spec_clamp(fxsqrt(tdiv(v, n)), 0, 65470), 256)
}

/// The full pixel line `"r g b\n"` for a sample-summed color.
pub open spec fn spec_color_string(c: V3, n: int) -> Seq<char> {
    dec_str(spec_channel(c.x, n)) + seq![' '] + dec_str(spec_channel(c.y, n)) + seq![' ']
        + dec_str(spec_channel(c.z, n)) + seq!['\n']
}

/// The single decimal digit `d` as a string.
fn digit_string(d: u32) -> (s: String)
    requires
        d < 10,
    ensures
        s@ =~= seq![digit_char(d as int)],
{
    proof {
        reveal_strlit("0");
        reveal_strlit("1");
        reveal_strlit("2");
        reveal_strlit("3");
        reveal_strlit("4");
        reveal_strlit("5");
        reveal_strlit("6");
        reveal_strlit("7");
        reveal_strlit("8");
        reveal_strlit("9");
    }
    if d == 0 {
        String::from_str("0")
    } else if d == 1 {
        String::from_str("1")
    } else if d == 2 {
        String::from_str("2")
    } else if d == 3 {
        String::from_str("3")
    } else if d == 4 {
        String::from_str("4")
    } else if d == 5 {
        String::from_str("5")
    } else if d == 6 {
        String::from_str("6")
    } else if d == 7 {
        String::from_str("7")
    } else if d == 8 {
        String::from_str("8")
    } else {
        String::from_str("9")
    }
}

/// The decimal rendering of `n` as a string.
fn u32_string(n: u32) -> (s: String)
    ensures
        s@ =~= dec_str(n as int),
    decreases n,
{
    if n <= 9 {
        digit_string(n)
    } else {
        let mut s = u32_string(n / 10);
        let d = digit_string(n % 10);
        s.append(d.as_str());
        proof {
            assert(s@ =~= dec_str((n / 10) as int).push(digit_char((n % 10) as int)));
        }
        s
    }
}

/// One channel of a sample-summed color turned into its pixel value.
fn channel_value(v: i64, samples: i64) -> (c: u32)
    requires
        0 <= v,
        1 <= samples,
    ensures
        c as int == spec_channel(v as int, samples as int),
        c <= 255,
{
    let scaled = v / samples;
    proof {
        lemma_tdiv_nonincreasing(v as int, samples as int);
    }
    let root = sqrt_fx(scaled);
    let clamped = clamp(root, 0, 65470);
    let pixel = clamped / 256;
    pixel as u32
}

impl Color {
    /// Build a color from its three channels.
    pub fn new(r: i64, g: i64, b: i64) -> (c: Color)
        ensures
            c@ == (V3 { x: r as int, y: g as int, z: b as int }),
    {
        Color(Vec3 { x: r, y: g, z: b })
    }

    /// Wrap a vector as a color.
    pub fn from_vec(vec: Vec3) -> (c: Color)
        ensures
            c@ == vec@,
    {
        Color(vec)
    }

    /// The red channel.
    pub fn x(&self) -> (r: i64)
        ensures
            r as int == self@.x,
    {
        self.0.x
    }

    /// The green channel.
    pub fn y(&self) -> (r: i64)
        ensures
            r as int == self@.y,
    {
        self.0.y
    }

    /// The blue channel.
    pub fn z(&self) -> (r: i64)
        ensures
            r as int == self@.z,
    {
        self.0.z
    }

    /// A color with three uniform random channels in `[0, 1)`, drawn from
    /// the thread-local generator.
    pub fn random() -> (c: Color)
        ensures
            bounded3(c@, 65536),
            0 <= c@.x && 0 <= c@.y && 0 <= c@.z,
    {
        let x = (random_u64() % 65536) as i64;
        let y = (random_u64() % 65536) as i64;
        let z = (random_u64() % 65536) as i64;
        Color(Vec3 { x, y, z })
    }

    /// Channelwise sum.
    pub fn add(self, other: Color) -> (c: Color)
        requires
            bounded3(self@, 0x1fffffffffffffff),
            bounded3(other@, 0x1fffffffffffffff),
        ensures
            c@ == vadd(self@, other@),
    {
        Color(self.0.add(other.0))
    }

    /// Channelwise fixed-point product.
    pub fn mul(self, other: Color) -> (c: Color)
        requires
            bounded3(self@, VLIM as int),
            bounded3(other@, VLIM as int),
        ensures
            c@ == vmul(self@, other@),
    {
        Color(self.0.mul(other.0))
    }

    /// The color scaled by `s`.
    pub fn scale(self, s: i64) -> (c: Color)
        requires
            bounded3(self@, VLIM as int),
            -VLIM <= s <= VLIM,
        ensures
            c@ == vscale(self@, s as int),
    {
        Color(self.0.scale(s))
    }

    /// The pixel line for this sample-summed color: each channel averaged,
    /// gamma-corrected, clamped and rendered as `"r g b\n"`.
    pub fn get_color_string(&self, samples_per_pixel: i32) -> (s: String)
        requires
            1 <= samples_per_pixel,
            0 <= self@.x && 0 <= self@.y && 0 <= self@.z,
        ensures
            s@ =~= spec_color_string(self@, samples_per_pixel as int),
    {
        let samples = samples_per_pixel as i64;
        let r = channel_value(self.0.x, samples);
        let g = channel_value(self.0.y, samples);
        let b = channel_value(self.0.z, samples);
        proof {
            reveal_strlit(" ");
            reveal_strlit("\n");
        }
        let mut s = u32_string(r);
        s.append(" ");
        let gs = u32_string(g);
        s.append(gs.as_str());
        s.append(" ");
        let bs = u32_string(b);
        s.append(bs.as_str());
        s.append("\n");
        proof {
            assert(" "@ =~= seq![' ']);
            assert("\n"@ =~= seq!['\n']);
        }
        s
    }
}

} // verus!
