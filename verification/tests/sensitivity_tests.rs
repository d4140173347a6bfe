use stimstack::profile::{ActivityLevel, Sex, UserProfile};
use stimstack::sensitivity::UserSensitivity;

#[test]
fn default_profile_values() {
    let sens = UserSensitivity::default();
    assert_eq!(sens.half_life_minutes, 300);
    assert_eq!(sens.sleep_decay_ug, 50_000);
    assert_eq!(sens.crash_threshold_ug, 10_000);
}

#[test]
fn baseline_profile_gets_age_adjustment_only() {
    // 70 kg leaves the weight factor at exactly 1; age 30 multiplies the
    // half-life by 1.025: 5.125 h = 307 whole minutes.
    let p = UserProfile {
        age: 30,
        weight_milli_kg: 70_000,
        height_milli_cm: 175_000,
        sex: Sex::Male,
        activity_level: ActivityLevel::Moderate,
        smoker: false,
    };
    let sens = UserSensitivity::from_profile(&p);
    assert_eq!(sens.half_life_minutes, 307);
    assert_eq!(sens.sleep_decay_ug, 50_000);
    assert_eq!(sens.crash_threshold_ug, 10_000);
}

#[test]
fn athletic_smoker_clears_caffeine_faster() {
    // 5.0 h * 0.9 (athletic) * 0.7 (smoker) = 3.15 h = 189 minutes, and
    // the athletic sleep-decay bonus lands at 55 mg.
    let p = UserProfile {
        age: 20,
        weight_milli_kg: 70_000,
        height_milli_cm: 180_000,
        sex: Sex::Male,
        activity_level: ActivityLevel::Athletic,
        smoker: false,
    };
    let sens = UserSensitivity::from_profile(&p);
    assert_eq!(sens.half_life_minutes, 270);
    assert_eq!(sens.sleep_decay_ug, 55_000);

    let smoker = UserProfile { smoker: true, ..p };
    let sens = UserSensitivity::from_profile(&smoker);
    assert_eq!(sens.half_life_minutes, 189);
    assert_eq!(sens.sleep_decay_ug, 55_000);
}

#[test]
fn extreme_profile_is_clamped() {
    // A heavy, older, sedentary female profile runs the half-life far past
    // the 8 h cap and the sleep decay far under the 30 mg floor: both clamp.
    let p = UserProfile {
        age: 255,
        weight_milli_kg: 200_000,
        height_milli_cm: 160_000,
        sex: Sex::Female,
        activity_level: ActivityLevel::Sedentary,
        smoker: false,
    };
    let sens = UserSensitivity::from_profile(&p);
    assert_eq!(sens.half_life_minutes, 480);
    assert_eq!(sens.sleep_decay_ug, 30_000);
    assert_eq!(sens.crash_threshold_ug, 10_000);
}

#[test]
fn derived_half_life_always_in_bounds() {
    let weights: [u64; 4] = [1_000, 45_500, 70_000, 250_000];
    let ages: [u8; 4] = [18, 26, 40, 255];
    for &w in weights.iter() {
        for &a in ages.iter() {
            let p = UserProfile {
                age: a,
                weight_milli_kg: w,
                height_milli_cm: 170_000,
                sex: Sex::Other,
                activity_level: ActivityLevel::Sedentary,
                smoker: true,
            };
            let sens = UserSensitivity::from_profile(&p);
            assert!(sens.half_life_minutes >= 180 && sens.half_life_minutes <= 480);
            assert!(sens.sleep_decay_ug >= 30_000 && sens.sleep_decay_ug <= 90_000);
        }
    }
}
