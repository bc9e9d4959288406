use crate::fixed::{lemma_tdiv_bounded, lemma_tdiv_nonincreasing, tdiv};
use rand::rngs::StdRng;
use vstd::arithmetic::div_mod::lemma_fundamental_div_mod_converse;
use vstd::prelude::*;

verus! {

#[verifier::external_type_specification]
#[verifier::external_body]
pub struct ExStdRng(StdRng);

/// Relies on rand's `SeedableRng::seed_from_u64`: builds a `StdRng` from a
/// 64-bit seed. Nothing is assumed about the stream it will produce.
#[verifier::external_body]
pub(crate) fn rng_from_seed(seed: u64) -> StdRng {
    <StdRng as rand::SeedableRng>::seed_from_u64(seed)
}

/// Relies on rand's `Rng::next_u64`: draws the next 64-bit value from the
/// generator. Nothing is assumed about the value drawn.
#[verifier::external_body]
pub(crate) fn next_u64(rng: &mut StdRng) -> u64 {
    rand::Rng::next_u64(rng)
}

/// Relies on `rand::random`: draws a 64-bit value from the thread-local
/// generator. Nothing is assumed about the value drawn.
#[verifier::external_body]
pub(crate) fn random_u64() -> u64 {
    rand::random::<u64>()
}

/// A random scalar in `[0, 1)` world units, uniform because `2^64` is a
/// multiple of `ONE`.
pub fn random_scalar(rng: &mut StdRng) -> (r: i64)
    ensures
        0 <= r < 65536,
{
    let x = next_u64(rng);
    (x % 65536) as i64
}

/// A random scalar in `[min, max)`, or `min` itself when the interval is
/// empty.
pub fn random_scalar_range(rng: &mut StdRng, min: i64, max: i64) -> (r: i64)
    requires
        min <= max,
        max - min <= 140737488355327,
    ensures
        min <= r <= max,
        min < max ==> r < max,
{
    let u = random_scalar(rng);
    let span = max - min;
    proof {
        assert(0 <= (span as int) * (u as int) <= 140737488355327int * 65536)
            by (nonlinear_arith)
            requires
                0 <= (span as int) <= 140737488355327,
                0 <= (u as int) < 65536,
        ;
    }
    let p: i128 = (span as i128) * (u as i128);
    let q: i128 = p / 65536;
    proof {
        let m = span as int;
        lemma_tdiv_nonincreasing(p as int, 65536);
        if m == 0 {
            assert(p as int == 0) by (nonlinear_arith)
                requires
                    p as int == m * (u as int),
                    m == 0,
            ;
        }
        if m > 0 {
            assert(p as int <= m * 65536 - 1) by (nonlinear_arith)
                requires
                    0 <= (u as int) < 65536,
                    1 <= m,
                    p as int == m * (u as int),
            ;
            lemma_fundamental_div_mod_converse(m * 65536 - 1, 65536, m - 1, 65535);
            lemma_tdiv_bounded(p as int, 65536, m * 65536 - 1);
            assert(tdiv(p as int, 65536) <= tdiv(m * 65536 - 1, 65536)) by {
                crate::fixed::lemma_tdiv_mono(p as int, m * 65536 - 1, 65536);
            }
        }
    }
    min + (q as i64)
}

} // verus!
