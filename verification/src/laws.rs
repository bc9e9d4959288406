use crate::fixed::{
    lemma_sqrt_floor, lemma_sqrt_floor_below, lemma_tdiv_exact, lemma_tdiv_mono,
    lemma_tdiv_remainder, tdiv,
};
use crate::vec3::{bounded3, vdot, vlen, vlen_sq, vreflect, vunit, V3, VLIM};
use vstd::prelude::*;

verus! {

/// The vector has unit length up to two raw units of fixed-point
/// rounding in its squared length.
pub open spec fn near_unit(v: V3) -> bool {
    &&& bounded3(v, 131072)
    &&& 65534 <= vlen_sq(v) <= 65538
}

/// The two-sided arithmetic-geometric bound: twice a dot product is
/// bounded either way by the sum of the squared lengths.
proof fn lemma_dot_am_gm(v: V3, n: V3)
    ensures
        2 * (v.x * n.x + v.y * n.y + v.z * n.z) <= (v.x * v.x + v.y * v.y + v.z * v.z) + (n.x * n.x
            + n.y * n.y + n.z * n.z),
        -((v.x * v.x + v.y * v.y + v.z * v.z) + (n.x * n.x + n.y * n.y + n.z * n.z)) <= 2 * (v.x
            * n.x + v.y * n.y + v.z * n.z),
{
    assert((v.x - n.x) * (v.x - n.x) == v.x * v.x - 2 * (v.x * n.x) + n.x * n.x && (v.x - n.x) * (
    v.x - n.x) >= 0) by (nonlinear_arith);
    assert((v.y - n.y) * (v.y - n.y) == v.y * v.y - 2 * (v.y * n.y) + n.y * n.y && (v.y - n.y) * (
    v.y - n.y) >= 0) by (nonlinear_arith);
    assert((v.z - n.z) * (v.z - n.z) == v.z * v.z - 2 * (v.z * n.z) + n.z * n.z && (v.z - n.z) * (
    v.z - n.z) >= 0) by (nonlinear_arith);
    assert((v.x + n.x) * (v.x + n.x) == v.x * v.x + 2 * (v.x * n.x) + n.x * n.x && (v.x + n.x) * (
    v.x + n.x) >= 0) by (nonlinear_arith);
    assert((v.y + n.y) * (v.y + n.y) == v.y * v.y + 2 * (v.y * n.y) + n.y * n.y && (v.y + n.y) * (
    v.y + n.y) >= 0) by (nonlinear_arith);
    assert((v.z + n.z) * (v.z + n.z) == v.z * v.z + 2 * (v.z * n.z) + n.z * n.z && (v.z + n.z) * (
    v.z + n.z) >= 0) by (nonlinear_arith);
}

/// The raw squared length of a near-unit vector is within three scale
/// units of the exact square, and each component is below `ONE + 2`.
proof fn lemma_near_unit_raw(n: V3)
    requires
        near_unit(n),
    ensures
        65536 * 65536 - 2 * 65536 <= n.x * n.x + n.y * n.y + n.z * n.z,
        n.x * n.x + n.y * n.y + n.z * n.z < 65536 * 65536 + 3 * 65536,
        -65538 <= n.x <= 65538,
        -65538 <= n.y <= 65538,
        -65538 <= n.z <= 65538,
{
    let raw = n.x * n.x + n.y * n.y + n.z * n.z;
    assert(0 <= n.x * n.x && 0 <= n.y * n.y && 0 <= n.z * n.z) by (nonlinear_arith);
    lemma_tdiv_remainder(raw, 65536);
    assert(vlen_sq(n) * 65536 <= raw < vlen_sq(n) * 65536 + 65536);
    assert(65534int * 65536 <= vlen_sq(n) * 65536 <= 65538int * 65536) by (nonlinear_arith)
        requires
            65534 <= vlen_sq(n) <= 65538,
    ;
    assert(n.x * n.x < 65538int * 65538 && n.y * n.y < 65538int * 65538 && n.z * n.z < 65538int
        * 65538) by (nonlinear_arith)
        requires
            raw == n.x * n.x + n.y * n.y + n.z * n.z,
            raw < 65536int * 65536 + 3 * 65536,
            0 <= n.x * n.x,
            0 <= n.y * n.y,
            0 <= n.z * n.z,
    ;
    assert(-65538 < n.x < 65538 && -65538 < n.y < 65538 && -65538 < n.z < 65538)
        by (nonlinear_arith)
        requires
            n.x * n.x < 65538int * 65538,
            n.y * n.y < 65538int * 65538,
            n.z * n.z < 65538int * 65538,
    ;
}

/// Reflection preserves the normal component up to sign: for near-unit
/// `v` and `n`, the dot product of `reflect(v, n)` with `n` is the
/// negation of the dot product of `v` with `n`, within sixteen raw units
/// (about `0.00025` world units) of fixed-point rounding.
#[verifier::rlimit(50)]
pub proof fn lemma_reflect_dot(v: V3, n: V3)
    requires
        near_unit(v),
        near_unit(n),
    ensures
        -16 <= vdot(vreflect(v, n), n) + vdot(v, n) <= 16,
{
    let dd = v.x * n.x + v.y * n.y + v.z * n.z;
    let d = vdot(v, n);
    let vv = v.x * v.x + v.y * v.y + v.z * v.z;
    let nn = n.x * n.x + n.y * n.y + n.z * n.z;
    lemma_near_unit_raw(v);
    lemma_near_unit_raw(n);
    lemma_dot_am_gm(v, n);
    // |dd| <= ONE^2 + 3 ONE, so |d| <= ONE + 3.
    assert(-(65536int * 65536 + 3 * 65536) <= dd <= 65536int * 65536 + 3 * 65536);
    lemma_tdiv_exact(65539int, 65536);
    lemma_tdiv_exact(-65539int, 65536);
    lemma_tdiv_mono(dd, 65539int * 65536, 65536);
    lemma_tdiv_mono((-65539int) * 65536, dd, 65536);
    assert(-65539 <= d <= 65539);
    // The three scaling remainders of the reflection.
    lemma_tdiv_remainder(n.x * (2 * d), 65536);
    lemma_tdiv_remainder(n.y * (2 * d), 65536);
    lemma_tdiv_remainder(n.z * (2 * d), 65536);
    let mx = tdiv(n.x * (2 * d), 65536);
    let my = tdiv(n.y * (2 * d), 65536);
    let mz = tdiv(n.z * (2 * d), 65536);
    let px = n.x * (2 * d) - mx * 65536;
    let py = n.y * (2 * d) - my * 65536;
    let pz = n.z * (2 * d) - mz * 65536;
    let r = vreflect(v, n);
    assert(r.x == v.x - mx && r.y == v.y - my && r.z == v.z - mz);
    let t = r.x * n.x + r.y * n.y + r.z * n.z;
    // Expand the reflected numerator one component at a time.
    assert((v.x - mx) * n.x * 65536 == v.x * n.x * 65536 - 2 * d * (n.x * n.x) + px * n.x)
        by (nonlinear_arith)
        requires
            px == n.x * (2 * d) - mx * 65536,
    ;
    assert((v.y - my) * n.y * 65536 == v.y * n.y * 65536 - 2 * d * (n.y * n.y) + py * n.y)
        by (nonlinear_arith)
        requires
            py == n.y * (2 * d) - my * 65536,
    ;
    assert((v.z - mz) * n.z * 65536 == v.z * n.z * 65536 - 2 * d * (n.z * n.z) + pz * n.z)
        by (nonlinear_arith)
        requires
            pz == n.z * (2 * d) - mz * 65536,
    ;
    let p = px * n.x + py * n.y + pz * n.z;
    assert(t * 65536 == dd * 65536 - 2 * d * nn + p) by (nonlinear_arith)
        requires
            t == (v.x - mx) * n.x + (v.y - my) * n.y + (v.z - mz) * n.z,
            dd == v.x * n.x + v.y * n.y + v.z * n.z,
            nn == n.x * n.x + n.y * n.y + n.z * n.z,
            p == px * n.x + py * n.y + pz * n.z,
            (v.x - mx) * n.x * 65536 == v.x * n.x * 65536 - 2 * d * (n.x * n.x) + px * n.x,
            (v.y - my) * n.y * 65536 == v.y * n.y * 65536 - 2 * d * (n.y * n.y) + py * n.y,
            (v.z - mz) * n.z * 65536 == v.z * n.z * 65536 - 2 * d * (n.z * n.z) + pz * n.z,
    ;
    // Bound the perturbation sum: |p_i| < ONE and |n_i| <= ONE + 2.
    assert(-(65536int * 65538) <= px * n.x <= 65536int * 65538 && -(65536int * 65538) <= py * n.y
        <= 65536int * 65538 && -(65536int * 65538) <= pz * n.z <= 65536int * 65538)
        by (nonlinear_arith)
        requires
            -65536 < px < 65536,
            -65536 < py < 65536,
            -65536 < pz < 65536,
            -65538 <= n.x <= 65538,
            -65538 <= n.y <= 65538,
            -65538 <= n.z <= 65538,
    ;
    // Split the raw dot product and the raw squared normal length.
    lemma_tdiv_remainder(dd, 65536);
    let e1 = dd - d * 65536;
    let en = nn - 65536 * 65536;
    assert(-2 * 65536 <= en < 3 * 65536);
    assert((t + d * 65536) * 65536 == e1 * 65536 - 2 * d * en + p) by (nonlinear_arith)
        requires
            t * 65536 == dd * 65536 - 2 * d * nn + p,
            e1 == dd - d * 65536,
            en == nn - 65536 * 65536,
    ;
    assert(-(12int * 65536) * 65536 <= (t + d * 65536) * 65536 <= (12int * 65536) * 65536)
        by (nonlinear_arith)
        requires
            (t + d * 65536) * 65536 == e1 * 65536 - 2 * d * en + p,
            -65536 < e1 < 65536,
            -65539 <= d <= 65539,
            -2 * 65536 <= en < 3 * 65536,
            -(3 * (65536int * 65538)) <= p <= 3 * (65536int * 65538),
    ;
    assert(-12 * 65536 <= t + d * 65536 <= 12 * 65536) by (nonlinear_arith)
        requires
            -(12int * 65536) * 65536 <= (t + d * 65536) * 65536 <= (12int * 65536) * 65536,
    ;
    lemma_tdiv_exact(-d + 12, 65536);
    lemma_tdiv_exact(-d - 12, 65536);
    lemma_tdiv_mono(t, (-d + 12) * 65536, 65536);
    lemma_tdiv_mono((-d - 12) * 65536, t, 65536);
    assert((-d + 12) * 65536 == -(d * 65536) + 12 * 65536) by (nonlinear_arith);
    assert((-d - 12) * 65536 == -(d * 65536) - 12 * 65536) by (nonlinear_arith);
}



/// One inequality step: multiplying both sides by a non-negative factor.
proof fn lemma_mul_le(a: int, b: int, c: int)
    requires
        a <= b,
        0 <= c,
    ensures
        a * c <= b * c,
        c * a <= c * b,
{
    assert(a * c <= b * c && c * a == a * c && c * b == b * c) by (nonlinear_arith)
        requires
            a <= b,
            0 <= c,
    ;
}

/// A positive common factor can be cancelled from an inequality.
proof fn lemma_cancel_factor(x: int, c: int, m: int)
    requires
        x * m <= c * m,
        0 < m,
    ensures
        x <= c,
{
    assert(x <= c) by (nonlinear_arith)
        requires
            x * m <= c * m,
            0 < m,
    ;
}

/// The square of a number strictly inside `(-b, b)` is below `b^2`.
proof fn lemma_square_window(x: int, b: int)
    requires
        -b < x < b,
    ensures
        0 <= x * x,
        x * x <= (b - 1) * (b - 1),
{
    assert(0 <= x * x && x * x <= (b - 1) * (b - 1)) by (nonlinear_arith)
        requires
            -b < x < b,
    ;
}

/// A product of numbers inside `(-a, a)` and `(-b, b)` is inside the
/// closed box `[-(a b), a b]`.
proof fn lemma_product_window(x: int, y: int, a: int, b: int)
    requires
        -a < x < a,
        -b < y < b,
    ensures
        -(a * b) <= x * y <= a * b,
{
    assert(-(a * b) <= x * y <= a * b) by (nonlinear_arith)
        requires
            -a < x < a,
            -b < y < b,
    ;
}

/// Normalization yields a unit vector: for any vector of at least unit
/// length (inside the multiplier's domain), the length of `unit_vector`
/// is one world unit, within sixteen raw units of fixed-point rounding.
pub proof fn lemma_unit_vector_length(v: V3)
    requires
        bounded3(v, VLIM as int),
        vlen(v) >= 65536,
    ensures
        65520 <= vlen(vunit(v)) <= 65552,
{
    let nr = v.x * v.x + v.y * v.y + v.z * v.z;
    let lsq = vlen_sq(v);
    let ll = vlen(v);
    assert(0 <= v.x * v.x && 0 <= v.y * v.y && 0 <= v.z * v.z) by (nonlinear_arith);
    lemma_tdiv_remainder(nr, 65536);
    let e0 = nr - lsq * 65536;
    assert(0 <= e0 < 65536);
    lemma_sqrt_floor(lsq * 65536);
    assert(ll * ll <= lsq * 65536 < (ll + 1) * (ll + 1));
    // Each component is below the length plus a small slack.
    assert((ll + 1) * (ll + 1) + 65536 <= (ll + 256) * (ll + 256)) by (nonlinear_arith)
        requires
            65536 <= ll,
    ;
    assert(-(ll + 256) < v.x < ll + 256 && -(ll + 256) < v.y < ll + 256 && -(ll + 256) < v.z < ll
        + 256) by (nonlinear_arith)
        requires
            v.x * v.x + v.y * v.y + v.z * v.z < (ll + 256) * (ll + 256),
            0 <= v.x * v.x,
            0 <= v.y * v.y,
            0 <= v.z * v.z,
            0 < ll + 256,
    ;
    // The three normalization remainders.
    lemma_tdiv_remainder(v.x * 65536, ll);
    lemma_tdiv_remainder(v.y * 65536, ll);
    lemma_tdiv_remainder(v.z * 65536, ll);
    let u = vunit(v);
    let rx = v.x * 65536 - u.x * ll;
    let ry = v.y * 65536 - u.y * ll;
    let rz = v.z * 65536 - u.z * ll;
    assert(-ll < rx < ll && -ll < ry < ll && -ll < rz < ll);
    let uu = u.x * u.x + u.y * u.y + u.z * u.z;
    // The exact expansion of the normalized squared length.
    assert((u.x * ll) * (u.x * ll) == v.x * v.x * (65536 * 65536) - 2 * 65536 * (v.x * rx) + rx
        * rx) by (nonlinear_arith)
        requires
            rx == v.x * 65536 - u.x * ll,
    ;
    assert((u.y * ll) * (u.y * ll) == v.y * v.y * (65536 * 65536) - 2 * 65536 * (v.y * ry) + ry
        * ry) by (nonlinear_arith)
        requires
            ry == v.y * 65536 - u.y * ll,
    ;
    assert((u.z * ll) * (u.z * ll) == v.z * v.z * (65536 * 65536) - 2 * 65536 * (v.z * rz) + rz
        * rz) by (nonlinear_arith)
        requires
            rz == v.z * 65536 - u.z * ll,
    ;
    let rr = v.x * rx + v.y * ry + v.z * rz;
    let qq = rx * rx + ry * ry + rz * rz;
    assert((u.x * u.x) * (ll * ll) == (u.x * ll) * (u.x * ll)) by (nonlinear_arith);
    assert((u.y * u.y) * (ll * ll) == (u.y * ll) * (u.y * ll)) by (nonlinear_arith);
    assert((u.z * u.z) * (ll * ll) == (u.z * ll) * (u.z * ll)) by (nonlinear_arith);
    assert((u.x * u.x) * (ll * ll) == v.x * v.x * (65536 * 65536) - 2 * 65536 * (v.x * rx) + rx
        * rx);
    assert((u.y * u.y) * (ll * ll) == v.y * v.y * (65536 * 65536) - 2 * 65536 * (v.y * ry) + ry
        * ry);
    assert((u.z * u.z) * (ll * ll) == v.z * v.z * (65536 * 65536) - 2 * 65536 * (v.z * rz) + rz
        * rz);
    assert(uu * (ll * ll) == nr * (65536 * 65536) - 2 * 65536 * rr + qq) by (nonlinear_arith)
        requires
            uu == u.x * u.x + u.y * u.y + u.z * u.z,
            nr == v.x * v.x + v.y * v.y + v.z * v.z,
            rr == v.x * rx + v.y * ry + v.z * rz,
            qq == rx * rx + ry * ry + rz * rz,
            (u.x * u.x) * (ll * ll) == v.x * v.x * (65536 * 65536) - 2 * 65536 * (v.x * rx) + rx
                * rx,
            (u.y * u.y) * (ll * ll) == v.y * v.y * (65536 * 65536) - 2 * 65536 * (v.y * ry) + ry
                * ry,
            (u.z * u.z) * (ll * ll) == v.z * v.z * (65536 * 65536) - 2 * 65536 * (v.z * rz) + rz
                * rz,
    ;
    // Scale the defect of the raw squared length up to 3 ONE ll^2.
    let aa = nr - ll * ll;
    assert((ll + 1) * (ll + 1) == ll * ll + 2 * ll + 1) by (nonlinear_arith);
    assert(0 <= aa <= 2 * ll + 65536);
    lemma_mul_le(aa, 2 * ll + 65536, 65536int * 65536);
    assert((2 * ll + 65536) * (65536int * 65536) <= 3 * 65536 * (ll * ll)) by (nonlinear_arith)
        requires
            65536 <= ll,
    ;
    assert(0 <= aa * (65536int * 65536)) by (nonlinear_arith)
        requires
            0 <= aa,
    ;
    // Bound the cross term by 7 ONE ll^2.
    lemma_product_window(v.x, rx, ll + 256, ll);
    lemma_product_window(v.y, ry, ll + 256, ll);
    lemma_product_window(v.z, rz, ll + 256, ll);
    assert(-(3 * ((ll + 256) * ll)) <= rr <= 3 * ((ll + 256) * ll));
    assert(2 * 65536 * (3 * ((ll + 256) * ll)) <= (7 * 65536) * (ll * ll)) by (nonlinear_arith)
        requires
            65536 <= ll,
    ;
    assert(-((7 * 65536) * (ll * ll)) <= 2 * 65536 * rr <= (7 * 65536) * (ll * ll))
        by (nonlinear_arith)
        requires
            -(3 * ((ll + 256) * ll)) <= rr <= 3 * ((ll + 256) * ll),
            2 * 65536 * (3 * ((ll + 256) * ll)) <= (7 * 65536) * (ll * ll),
            0 <= (ll + 256) * ll,
    ;
    // Bound the remainder term by 3 ll^2.
    lemma_square_window(rx, ll);
    lemma_square_window(ry, ll);
    lemma_square_window(rz, ll);
    assert((ll - 1) * (ll - 1) <= ll * ll) by (nonlinear_arith)
        requires
            1 <= ll,
    ;
    assert(0 <= qq <= 3 * (ll * ll));
    // Combine: the squared unit length is within 11 ONE of ONE squared.
    assert((uu - 65536 * 65536) * (ll * ll) == aa * (65536int * 65536) - 2 * 65536 * rr + qq)
        by (nonlinear_arith)
        requires
            uu * (ll * ll) == nr * (65536 * 65536) - 2 * 65536 * rr + qq,
            aa == nr - ll * ll,
    ;
    assert(0 < ll * ll) by (nonlinear_arith)
        requires
            65536 <= ll,
    ;
    assert(-((11int * 65536) * (ll * ll)) <= (uu - 65536 * 65536) * (ll * ll) <= (11int * 65536)
        * (ll * ll)) by (nonlinear_arith)
        requires
            (uu - 65536 * 65536) * (ll * ll) == aa * (65536int * 65536) - 2 * 65536 * rr + qq,
            0 <= aa * (65536int * 65536) <= 3 * 65536 * (ll * ll),
            -((7 * 65536) * (ll * ll)) <= 2 * 65536 * rr <= (7 * 65536) * (ll * ll),
            0 <= qq <= 3 * (ll * ll),
            0 < ll * ll,
    ;
    lemma_cancel_factor(uu - 65536 * 65536, 11int * 65536, ll * ll);
    assert((-(11int * 65536)) * (ll * ll) <= (uu - 65536 * 65536) * (ll * ll))
        by (nonlinear_arith)
        requires
            -((11int * 65536) * (ll * ll)) <= (uu - 65536 * 65536) * (ll * ll),
    ;
    lemma_cancel_factor(-(11int * 65536), uu - 65536 * 65536, ll * ll);
    // Push the window through the final truncation and square root.
    lemma_tdiv_exact(65525int, 65536);
    lemma_tdiv_exact(65547int, 65536);
    lemma_tdiv_mono(uu, 65547int * 65536, 65536);
    lemma_tdiv_mono(65525int * 65536, uu, 65536);
    let lu = vlen_sq(u);
    assert(65525 <= lu <= 65547);
    lemma_sqrt_floor(lu * 65536);
    assert(lu * 65536 < 65552int * 65552) by (nonlinear_arith)
        requires
            lu <= 65547,
    ;
    lemma_sqrt_floor_below(lu * 65536, 65552);
    assert(65520int * 65520 <= lu * 65536) by (nonlinear_arith)
        requires
            65525 <= lu,
    ;
    assert(vlen(u) >= 65520) by (nonlinear_arith)
        requires
            65520int * 65520 <= lu * 65536,
            lu * 65536 < (vlen(u) + 1) * (vlen(u) + 1),
            0 <= vlen(u),
    ;
}

} // verus!
