use vstd::prelude::*;
use vstd::arithmetic::div_mod::{lemma_div_is_ordered, lemma_div_multiples_vanish};
use crate::caffeine::{spec_total, total_caffeine};
use crate::dose::{Dose, spec_amount_sum};
use crate::fixedpoint::{spec_exp2_frac, exp2_frac, spec_halve_n, halve_n, lemma_halve_n_le};
use crate::sensitivity::{UserSensitivity, spec_valid_sensitivity};

verus! {

/// Sleep-quality score in thousandths of a point for a caffeine level `c`
/// and a sleep decay `d`, both in micrograms: `100 * exp(-c / d)`,
/// evaluated as `100 * 2^(-(c * (1/ln 2)) / d)` in Q32 fixed point, where
/// `6_196_328_019` is `2^32 / ln 2` rounded to the nearest integer. Whole
/// powers of two beyond the sixty-fourth are treated as zero.
pub open spec fn spec_score_of(c: int, d: int) -> int {
    let x = c * 6_196_328_019 / d;
    let q = x / 0x1_0000_0000;
    if q >= 64 {
        0
    } else {
        spec_halve_n(100_000 * spec_exp2_frac(x % 0x1_0000_0000) / 0x1_0000_0000, q as nat)
    }
}

/// The sleep-quality score of going to sleep at `sleep_time` with the given
/// doses in the blood, in thousandths of a point.
pub open spec fn spec_sleep_score(doses: Seq<Dose>, sleep_time: int, s: UserSensitivity) -> int {
    spec_score_of(spec_total(doses, sleep_time, s), s.sleep_decay_ug as int)
}

/// Scores sleep quality at `sleep_time` on a scale of 0 to 100 points,
/// returned in thousandths of a point; the score never leaves that scale.
pub fn sleep_score(doses: &Vec<Dose>, sleep_time: i64, s: &UserSensitivity) -> (r: u64)
    requires
        spec_valid_sensitivity(*s),
        spec_amount_sum(doses@) <= u64::MAX,
    ensures
        r == spec_sleep_score(doses@, sleep_time as int, *s),
        r <= 100_000,
{
    let c: u64 = total_caffeine(doses, sleep_time, s);
    let x: u128 = (c as u128) * 6_196_328_019u128 / (s.sleep_decay_ug as u128);
    let q: u128 = x / 0x1_0000_0000;
    if q >= 64 {
        0
    } else {
        let xf: u64 = (x % 0x1_0000_0000) as u64;
        let f: u64 = exp2_frac(xf);
        proof {
            assert(100_000u128 * f <= 100_000u128 * 0x1_0000_0000u64) by (nonlinear_arith)
                requires f <= 0x1_0000_0000u64;
            lemma_div_is_ordered(
                (100_000u128 * f) as int,
                100_000 * 0x1_0000_0000int,
                0x1_0000_0000,
            );
            lemma_div_multiples_vanish(100_000, 0x1_0000_0000int);
            assert(100_000 * 0x1_0000_0000int == 0x1_0000_0000int * 100_000);
        }
        let base: u64 = ((100_000u128 * (f as u128)) / 0x1_0000_0000) as u64;
        proof {
            lemma_halve_n_le(base as int, q as nat);
        }
        halve_n(base, q as u64)
    }
}

} // verus!
