use vstd::prelude::*;
use vstd::arithmetic::div_mod::{lemma_div_is_ordered, lemma_div_multiples_vanish};
use vstd::arithmetic::mul::lemma_mul_inequality;
use crate::fixedpoint::{sqrt_floor, isqrt, lemma_sqrt_floor_props};
use crate::profile::{ActivityLevel, Sex, UserProfile};

verus! {

/// Applies one per-mille adjustment factor, rounding down.
fn scale_milli(v: u128, f: u128) -> (r: u128)
    requires
        v < 0x1_0000_0000_0000u128,
        f <= 2200,
    ensures
        r == v * f / 1000,
        r <= 3 * v,
{
    proof {
        lemma_mul_inequality(f as int, 2200, v as int);
        assert(v * f == f * v) by (nonlinear_arith);
        assert(v * 2200 == 2200 * v) by (nonlinear_arith);
        assert(v * 2200 < 0x1_0000_0000_0000u128 * 2200) by (nonlinear_arith)
            requires v < 0x1_0000_0000_0000u128;
        lemma_div_is_ordered((v * f) as int, (v * 2200) as int, 1000);
        lemma_div_is_ordered((v * 2200) as int, (v * 3000) as int, 1000);
        lemma_mul_inequality(2200, 3000, v as int);
        assert(2200 * v == v * 2200) by (nonlinear_arith);
        assert(3000 * v == v * 3000) by (nonlinear_arith);
        lemma_div_multiples_vanish(3 * v as int, 1000);
        assert(v * 3000 == 1000 * (3 * v)) by (nonlinear_arith);
    }
    v * f / 1000
}

/// Per-user decay and scoring parameters: the caffeine half-life in whole
/// minutes, and the sleep-decay and crash-threshold levels in micrograms.
#[derive(Clone, Copy, PartialEq, Eq, Structural, Debug)]
pub struct UserSensitivity {
    pub half_life_minutes: u32,
    pub sleep_decay_ug: u64,
    pub crash_threshold_ug: u64,
}

/// What every function of the model needs of a sensitivity profile: all
/// three parameters positive.
pub open spec fn spec_valid_sensitivity(s: UserSensitivity) -> bool {
    s.half_life_minutes >= 1 && s.sleep_decay_ug >= 1 && s.crash_threshold_ug >= 1
}

/// The documented default profile: five-hour half-life, 50 mg sleep decay,
/// 10 mg crash threshold.
pub open spec fn spec_default_sensitivity() -> UserSensitivity {
    UserSensitivity {
        half_life_minutes: 300u32,
        sleep_decay_ug: 50_000u64,
        crash_threshold_ug: 10_000u64,
    }
}

impl Default for UserSensitivity {
    /// The documented default profile: five-hour half-life, 50 mg sleep
    /// decay, 10 mg crash threshold.
    fn default() -> (r: Self)
        ensures
            r == spec_default_sensitivity(),
            spec_valid_sensitivity(r),
    {
        UserSensitivity {
            half_life_minutes: 300,
            sleep_decay_ug: 50_000,
            crash_threshold_ug: 10_000,
        }
    }
}

/// `1000 * (weight_kg / 70)^(1/4)`, rounded down, for a weight given in
/// milli-kilograms: the weight adjustment to the half-life, in thousandths.
pub open spec fn spec_weight_factor(weight_milli_kg: int) -> int {
    sqrt_floor(sqrt_floor((weight_milli_kg * 1_000_000_000_000 / 70_000) as nat)) as int
}

/// Half-life adjustment for age, in thousandths: half a per mille per year
/// past 25.
pub open spec fn spec_age_half_life_factor(age: int) -> int {
    if age > 25 {
        1000 + (age - 25) * 5
    } else {
        1000
    }
}

/// Sleep-decay adjustment for age, in thousandths: ages up to 30 carry no
/// penalty.
pub open spec fn spec_age_sleep_factor(age: int) -> int {
    if age > 30 {
        1000 - (age - 30) * 3
    } else {
        1000
    }
}

pub open spec fn spec_sex_factor(sex: Sex) -> int {
    if sex == Sex::Female {
        1100
    } else {
        1000
    }
}

pub open spec fn spec_activity_half_life_factor(a: ActivityLevel) -> int {
    match a {
        ActivityLevel::Sedentary => 1050,
        ActivityLevel::Moderate => 1000,
        ActivityLevel::Athletic => 900,
    }
}

pub open spec fn spec_activity_sleep_factor(a: ActivityLevel) -> int {
    match a {
        ActivityLevel::Sedentary => 900,
        ActivityLevel::Moderate => 1000,
        ActivityLevel::Athletic => 1100,
    }
}

pub open spec fn spec_smoker_factor(smoker: bool) -> int {
    if smoker {
        700
    } else {
        1000
    }
}

pub open spec fn spec_clamp(v: int, lo: int, hi: int) -> int {
    if v < lo {
        lo
    } else if v > hi {
        hi
    } else {
        v
    }
}

/// Half-life in milli-hours derived from a profile: the 5.0 h baseline with
/// the multiplicative adjustments applied in order (weight, age, sex,
/// activity, smoking), each rounded down, then clamped to [3.0 h, 8.0 h].
pub open spec fn spec_derived_half_life_milli_hours(p: UserProfile) -> int {
    let h0 = 5000 * spec_weight_factor(p.weight_milli_kg as int) / 1000;
    let h1 = h0 * spec_age_half_life_factor(p.age as int) / 1000;
    let h2 = h1 * spec_sex_factor(p.sex) / 1000;
    let h3 = h2 * spec_activity_half_life_factor(p.activity_level) / 1000;
    let h4 = h3 * spec_smoker_factor(p.smoker) / 1000;
    spec_clamp(h4, 3000, 8000)
}

/// Sleep decay in micrograms derived from a profile: the 50 mg baseline
/// adjusted for age and activity, clamped to [30 mg, 90 mg].
pub open spec fn spec_derived_sleep_decay_ug(p: UserProfile) -> int {
    let d0 = 50_000 * spec_age_sleep_factor(p.age as int) / 1000;
    let d1 = d0 * spec_activity_sleep_factor(p.activity_level) / 1000;
    spec_clamp(d1, 30_000, 90_000)
}

/// The sensitivity profile derived from a user profile. The crash threshold
/// is the fixed domain default of 10 mg.
pub open spec fn spec_derive(p: UserProfile) -> UserSensitivity {
    UserSensitivity {
        half_life_minutes: (spec_derived_half_life_milli_hours(p) * 60 / 1000) as u32,
        sleep_decay_ug: spec_derived_sleep_decay_ug(p) as u64,
        crash_threshold_ug: 10_000u64,
    }
}

impl UserSensitivity {
    /// Derives a sensitivity profile from physical attributes, in integer
    /// arithmetic over thousandths. Total: every profile yields a profile
    /// with a half-life of 3 to 8 hours and a sleep decay of 30 to 90 mg.
    pub fn from_profile(p: &UserProfile) -> (r: Self)
        ensures
            r == spec_derive(*p),
            spec_valid_sensitivity(r),
            180 <= r.half_life_minutes <= 480,
            30_000 <= r.sleep_decay_ug <= 90_000,
            r.crash_threshold_ug == 10_000,
    {
        let scaled: u128 = (p.weight_milli_kg as u128) * 1_000_000_000_000u128 / 70_000;
        let root2: u128 = isqrt(scaled);
        let w4: u128 = isqrt(root2);
        proof {
            lemma_sqrt_floor_props(scaled as nat);
            lemma_sqrt_floor_props(root2 as nat);
            assert(w4 < 0x1_0000_0000u128) by (nonlinear_arith)
                requires
                    w4 * w4 <= root2,
                    root2 < 0x1_0000_0000_0000_0000u128,
            ;
        }
        let h0: u128 = 5000 * w4 / 1000;
        proof {
            assert(5000 * w4 < 5000 * 0x1_0000_0000u128) by (nonlinear_arith)
                requires w4 < 0x1_0000_0000u128;
            lemma_div_is_ordered((5000 * w4) as int, 5000 * 0x1_0000_0000int, 1000);
        }
        let age_hl: u128 = if p.age > 25 {
            1000 + (p.age as u128 - 25) * 5
        } else {
            1000
        };
        let sex_f: u128 = if matches!(p.sex, Sex::Female) {
            1100
        } else {
            1000
        };
        let act_hl: u128 = match p.activity_level {
            ActivityLevel::Sedentary => 1050,
            ActivityLevel::Moderate => 1000,
            ActivityLevel::Athletic => 900,
        };
        let smoke_f: u128 = if p.smoker {
            700
        } else {
            1000
        };
        let h1: u128 = scale_milli(h0, age_hl);
        let h2: u128 = scale_milli(h1, sex_f);
        let h3: u128 = scale_milli(h2, act_hl);
        let h4: u128 = scale_milli(h3, smoke_f);
        let clamped_h: u128 = if h4 < 3000 {
            3000
        } else if h4 > 8000 {
            8000
        } else {
            h4
        };
        let half_life_minutes: u32 = (clamped_h * 60 / 1000) as u32;

        let age_sleep: u128 = if p.age > 30 {
            1000 - (p.age as u128 - 30) * 3
        } else {
            1000
        };
        let act_sleep: u128 = match p.activity_level {
            ActivityLevel::Sedentary => 900,
            ActivityLevel::Moderate => 1000,
            ActivityLevel::Athletic => 1100,
        };
        let d0: u128 = 50_000 * age_sleep / 1000;
        proof {
            assert(50_000 * age_sleep <= 50_000 * 1000u128) by (nonlinear_arith)
                requires age_sleep <= 1000;
            lemma_div_is_ordered((50_000 * age_sleep) as int, 50_000 * 1000int, 1000);
        }
        let d1: u128 = scale_milli(d0, act_sleep);
        let sleep_decay_ug: u64 = if d1 < 30_000 {
            30_000
        } else if d1 > 90_000 {
            90_000
        } else {
            d1 as u64
        };

        UserSensitivity {
            half_life_minutes,
            sleep_decay_ug,
            crash_threshold_ug: 10_000,
        }
    }
}

} // verus!
