use vstd::prelude::*;
use vstd::arithmetic::div_mod::{lemma_div_is_ordered, lemma_div_multiples_vanish, lemma_div_pos_is_pos};
use vstd::arithmetic::mul::lemma_mul_inequality;
use crate::dose::{Dose, spec_minutes_between, minutes_between, spec_amount_sum, lemma_amount_sum_take_step, lemma_amount_sum_take_le};
use crate::fixedpoint::{spec_ratio_q32, ratio_q32, spec_pow_q32, pow_q32, spec_log2_q32, log2_q32, lemma_ratio_q32_bounds, lemma_pow_q32_bounds, lemma_pow_q32_monotone, lemma_pow_q32_strictly_decreasing};
use crate::sensitivity::{UserSensitivity, spec_valid_sensitivity};

verus! {

/// Micrograms left of a dose of `c0` micrograms, `e` whole minutes after
/// intake, with a half-life of `h` minutes: nothing before the dose acts,
/// afterwards `c0` scaled by the Q32 decay fraction for `e` minutes.
pub open spec fn spec_decay(c0: int, e: int, h: int) -> int {
    if e < 0 {
        0
    } else {
        c0 * spec_pow_q32(spec_ratio_q32(h), e as nat) / 0x1_0000_0000
    }
}

/// A dose never contributes negatively, nor more than its own amount.
pub proof fn lemma_decay_le(c0: int, e: int, h: int)
    requires
        0 <= c0,
        1 <= h <= 0xFFFF_FFFFu64,
    ensures
        0 <= spec_decay(c0, e, h) <= c0,
{
    if e >= 0 {
        lemma_ratio_q32_bounds(h);
        let p = spec_pow_q32(spec_ratio_q32(h), e as nat);
        lemma_pow_q32_bounds(spec_ratio_q32(h), e as nat);
        assert(0 <= c0 * p / 0x1_0000_0000 <= c0) by (nonlinear_arith)
            requires
                0 <= c0,
                0 <= p <= 0x1_0000_0000,
        ;
    }
}

/// Total caffeine in the bloodstream at instant `t` (Unix seconds): the sum
/// of every dose's decayed contribution, each dose decaying independently.
pub open spec fn spec_total(doses: Seq<Dose>, t: int, s: UserSensitivity) -> int
    decreases doses.len(),
{
    if doses.len() == 0 {
        0
    } else {
        spec_decay(
            doses[0].amount_ug as int,
            spec_minutes_between(doses[0].time_s as int, t),
            s.half_life_minutes as int,
        ) + spec_total(doses.subrange(1, doses.len() as int), t, s)
    }
}

/// The total over a one-longer prefix grows by exactly the new dose's
/// contribution.
pub proof fn lemma_total_take_step(s: Seq<Dose>, t: int, sens: UserSensitivity, i: int)
    requires
        0 <= i < s.len(),
    ensures
        spec_total(s.take(i + 1), t, sens) == spec_total(s.take(i), t, sens) + spec_decay(
            s[i].amount_ug as int,
            spec_minutes_between(s[i].time_s as int, t),
            sens.half_life_minutes as int,
        ),
    decreases i,
{
    if i == 0 {
        assert(s.take(1).subrange(1, 1) =~= s.take(0));
    } else {
        lemma_total_take_step(s.subrange(1, s.len() as int), t, sens, i - 1);
        assert(s.take(i + 1).subrange(1, i + 1) =~= s.subrange(1, s.len() as int).take(i));
        assert(s.take(i).subrange(1, i) =~= s.subrange(1, s.len() as int).take(i - 1));
        assert(s.subrange(1, s.len() as int)[i - 1] == s[i]);
    }
}

/// The total is non-negative and never exceeds the sum of the amounts.
pub proof fn lemma_total_bounds(s: Seq<Dose>, t: int, sens: UserSensitivity)
    requires
        1 <= sens.half_life_minutes,
    ensures
        0 <= spec_total(s, t, sens) <= spec_amount_sum(s),
    decreases s.len(),
{
    if s.len() > 0 {
        lemma_decay_le(
            s[0].amount_ug as int,
            spec_minutes_between(s[0].time_s as int, t),
            sens.half_life_minutes as int,
        );
        lemma_total_bounds(s.subrange(1, s.len() as int), t, sens);
    }
}

/// Micrograms left of a single dose, `elapsed_minutes` whole minutes after
/// intake, under the given sensitivity.
pub fn caffeine_decay(c0_ug: u64, elapsed_minutes: i64, s: &UserSensitivity) -> (r: u64)
    requires
        s.half_life_minutes >= 1,
    ensures
        r == spec_decay(c0_ug as int, elapsed_minutes as int, s.half_life_minutes as int),
        r <= c0_ug,
{
    if elapsed_minutes < 0 {
        0
    } else {
        let rho: u64 = ratio_q32(s.half_life_minutes);
        let p: u64 = pow_q32(rho, elapsed_minutes as u64);
        proof {
            assert(c0_ug * p <= c0_ug * 0x1_0000_0000u64) by (nonlinear_arith)
                requires
                    p <= 0x1_0000_0000u64,
                    0 <= c0_ug,
            ;
            assert(c0_ug * p / 0x1_0000_0000 <= c0_ug) by (nonlinear_arith)
                requires
                    0 <= c0_ug * p,
                    c0_ug * p <= c0_ug * 0x1_0000_0000u64,
            ;
        }
        ((c0_ug as u128) * (p as u128) / 0x1_0000_0000u128) as u64
    }
}

/// Total caffeine in the bloodstream at instant `t` (Unix seconds): the
/// superposition of all doses, each decayed independently.
pub fn total_caffeine(doses: &Vec<Dose>, t: i64, s: &UserSensitivity) -> (r: u64)
    requires
        spec_valid_sensitivity(*s),
        spec_amount_sum(doses@) <= u64::MAX,
    ensures
        r == spec_total(doses@, t as int, *s),
        r <= spec_amount_sum(doses@),
{
    let mut acc: u64 = 0;
    let mut i: usize = 0;
    proof {
        assert(doses@.take(0) =~= Seq::<Dose>::empty());
    }
    while i < doses.len()
        invariant
            0 <= i <= doses@.len(),
            spec_valid_sensitivity(*s),
            spec_amount_sum(doses@) <= u64::MAX,
            acc == spec_total(doses@.take(i as int), t as int, *s),
            acc <= spec_amount_sum(doses@.take(i as int)),
        decreases doses@.len() - i,
    {
        let d = doses[i];
        let e: i64 = minutes_between(d.time_s, t);
        let contribution: u64 = caffeine_decay(d.amount_ug, e, s);
        proof {
            lemma_total_take_step(doses@, t as int, *s, i as int);
            lemma_amount_sum_take_step(doses@, i as int);
            lemma_amount_sum_take_le(doses@, i as int + 1);
        }
        acc = acc + contribution;
        i = i + 1;
    }
    proof {
        assert(doses@.take(doses@.len() as int) =~= doses@);
    }
    acc
}

/// Seconds from "now" until the blended decay curve falls to the crash
/// threshold: `half_life * log2(current / threshold)`, in Q32 arithmetic,
/// rounded to the nearest whole second.
pub open spec fn spec_crash_seconds(c: int, threshold: int, h: int) -> int {
    (h * 60 * spec_log2_q32(c * 0x1_0000_0000 / threshold) + 0x8000_0000) / 0x1_0000_0000
}

/// The instant the concentration is predicted to reach the crash threshold:
/// `now` itself when the level is already at or below the threshold, else
/// `now` plus the single-exponential solution from the current total level.
pub open spec fn spec_predicted_crash(doses: Seq<Dose>, now: int, s: UserSensitivity) -> int {
    let c = spec_total(doses, now, s);
    if c <= s.crash_threshold_ug {
        now
    } else {
        now + spec_crash_seconds(c, s.crash_threshold_ug as int, s.half_life_minutes as int)
    }
}

/// Predicts the crash instant for the given doses as seen from `now`.
/// Already-crashed levels return `now` itself; a level at least twice the
/// threshold puts the crash strictly in the future.
pub fn predicted_crash(doses: &Vec<Dose>, now: i64, s: &UserSensitivity) -> (r: i64)
    requires
        spec_valid_sensitivity(*s),
        spec_amount_sum(doses@) <= u64::MAX,
        now <= 0x4000_0000_0000_0000i64,
    ensures
        r == spec_predicted_crash(doses@, now as int, *s),
        spec_total(doses@, now as int, *s) <= s.crash_threshold_ug ==> r == now,
        spec_total(doses@, now as int, *s) > s.crash_threshold_ug ==> r >= now,
        spec_total(doses@, now as int, *s) >= 2 * s.crash_threshold_ug ==> r > now,
{
    let c: u64 = total_caffeine(doses, now, s);
    if c <= s.crash_threshold_ug {
        return now;
    }
    let threshold: u128 = s.crash_threshold_ug as u128;
    let m: u128 = (c as u128) * 0x1_0000_0000u128 / threshold;
    proof {
        let cq: int = c as int * 0x1_0000_0000;
        let th: int = threshold as int;
        vstd::arithmetic::div_mod::lemma_fundamental_div_mod(cq, th);
        assert(m >= 0x1_0000_0000u128) by (nonlinear_arith)
            requires
                cq == c as int * 0x1_0000_0000,
                cq == th * (cq / th) + cq % th,
                m == cq / th,
                0 <= cq % th < th,
                c >= th + 1,
                th >= 1,
        ;
        if c >= 2 * threshold {
            assert(m >= 0x2_0000_0000u128) by (nonlinear_arith)
                requires
                    cq == c as int * 0x1_0000_0000,
                    cq == th * (cq / th) + cq % th,
                    m == cq / th,
                    0 <= cq % th < th,
                    c >= 2 * th,
                    th >= 1,
            ;
        }
    }
    let y: u64 = log2_q32(m);
    let h: u128 = s.half_life_minutes as u128;
    proof {
        assert(h * 60 * y <= 0xFFFF_FFFFu128 * 60 * 0x62_0000_0000u64) by (nonlinear_arith)
            requires
                h <= 0xFFFF_FFFFu128,
                y < 0x62_0000_0000u64,
        ;
        lemma_div_is_ordered(
            (h * 60 * y + 0x8000_0000) as int,
            0xFFFF_FFFFu128 * 60 * 0x62_0000_0000u64 + 0x8000_0000,
            0x1_0000_0000,
        );
        lemma_div_pos_is_pos((h * 60 * y + 0x8000_0000) as int, 0x1_0000_0000int);
        if m >= 0x2_0000_0000u128 {
            assert(h * 60 * y >= h * 60 * 0x1_0000_0000u64) by (nonlinear_arith)
                requires
                    y >= 0x1_0000_0000u64,
                    h >= 1,
            ;
            assert(h * 60 * 0x1_0000_0000u64 == 0x1_0000_0000 * (60 * h)) by (nonlinear_arith);
            lemma_div_multiples_vanish((60 * h) as int, 0x1_0000_0000int);
            lemma_div_is_ordered(
                (0x1_0000_0000 * (60 * h)) as int,
                (h * 60 * y + 0x8000_0000) as int,
                0x1_0000_0000,
            );
        }
    }
    let numerator: u128 = h * 60 * (y as u128) + 0x8000_0000;
    let secs128: u128 = numerator / 0x1_0000_0000;
    let secs: i64 = secs128 as i64;
    now + secs
}

/// Concentration monotonicity: one dose's contribution never grows as
/// elapsed time passes, and before its intake instant it is exactly zero.
pub proof fn lemma_decay_monotonic(c0: int, e1: int, e2: int, h: int)
    requires
        0 <= c0,
        1 <= h <= 0xFFFF_FFFFu64,
        e1 < e2,
    ensures
        spec_decay(c0, e2, h) <= spec_decay(c0, e1, h) || e1 < 0,
        e1 < 0 ==> spec_decay(c0, e1, h) == 0,
{
    if 0 <= e1 {
        lemma_ratio_q32_bounds(h);
        let rho = spec_ratio_q32(h);
        lemma_pow_q32_monotone(rho, e1 as nat, e2 as nat);
        let p1 = spec_pow_q32(rho, e1 as nat);
        let p2 = spec_pow_q32(rho, e2 as nat);
        lemma_pow_q32_bounds(rho, e1 as nat);
        lemma_pow_q32_bounds(rho, e2 as nat);
        lemma_mul_inequality(p2, p1, c0);
        assert(c0 * p2 == p2 * c0) by (nonlinear_arith);
        assert(c0 * p1 == p1 * c0) by (nonlinear_arith);
        lemma_div_is_ordered(c0 * p2, c0 * p1, 0x1_0000_0000);
    }
}

/// At the intake instant a dose is present in full: the decay curve starts
/// at exactly the dose amount.
pub proof fn lemma_decay_at_intake(c0: int, h: int)
    requires
        0 <= c0,
    ensures
        spec_decay(c0, 0, h) == c0,
{
    lemma_div_multiples_vanish(c0, 0x1_0000_0000int);
    assert(c0 * 0x1_0000_0000 == 0x1_0000_0000 * c0);
}

/// While a dose's Q32 decay fraction is still positive, it is strictly
/// decreasing minute over minute.
pub proof fn lemma_decay_fraction_strictly_decreasing(e1: int, e2: int, h: int)
    requires
        1 <= h <= 0xFFFF_FFFFu64,
        0 <= e1 < e2,
        spec_pow_q32(spec_ratio_q32(h), e1 as nat) > 0,
    ensures
        spec_pow_q32(spec_ratio_q32(h), e2 as nat) < spec_pow_q32(spec_ratio_q32(h), e1 as nat),
{
    lemma_ratio_q32_bounds(h);
    lemma_pow_q32_strictly_decreasing(spec_ratio_q32(h), e1 as nat, e2 as nat);
}

/// Additivity: the concentration of a concatenation of schedules is the sum
/// of the concentrations of the parts, at any instant.
pub proof fn lemma_concentration_additive(s1: Seq<Dose>, s2: Seq<Dose>, t: int, sens: UserSensitivity)
    ensures
        spec_total(s1 + s2, t, sens) == spec_total(s1, t, sens) + spec_total(s2, t, sens),
    decreases s1.len(),
{
    if s1.len() == 0 {
        assert(s1 + s2 =~= s2);
    } else {
        lemma_concentration_additive(s1.subrange(1, s1.len() as int), s2, t, sens);
        assert((s1 + s2).subrange(1, (s1 + s2).len() as int) =~= s1.subrange(1, s1.len() as int)
            + s2);
        assert((s1 + s2)[0] == s1[0]);
    }
}

/// A schedule of one dose concentrates exactly that dose's decayed amount.
pub proof fn lemma_concentration_singleton(d: Dose, t: int, sens: UserSensitivity)
    ensures
        spec_total(seq![d], t, sens) == spec_decay(
            d.amount_ug as int,
            spec_minutes_between(d.time_s as int, t),
            sens.half_life_minutes as int,
        ),
{
    assert(seq![d].subrange(1, 1) =~= Seq::<Dose>::empty());
    assert(seq![d].len() == 1);
    assert(seq![d][0] == d);
    lemma_empty_schedule(t, sens);
    assert(spec_total(seq![d], t, sens) == spec_decay(
        seq![d][0].amount_ug as int,
        spec_minutes_between(seq![d][0].time_s as int, t),
        sens.half_life_minutes as int,
    ) + spec_total(seq![d].subrange(1, 1), t, sens));
}

/// An empty schedule holds no caffeine at any instant.
pub proof fn lemma_empty_schedule(t: int, sens: UserSensitivity)
    ensures
        spec_total(Seq::<Dose>::empty(), t, sens) == 0,
{
}

} // verus!
