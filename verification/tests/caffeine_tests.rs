use chrono::TimeZone;
use chrono::Utc;
use stimstack::caffeine::{caffeine_decay, predicted_crash, total_caffeine};
use stimstack::dose::Dose;
use stimstack::sensitivity::UserSensitivity;

fn test_sensitivity() -> UserSensitivity {
    UserSensitivity {
        half_life_minutes: 300,
        sleep_decay_ug: 50_000,
        crash_threshold_ug: 10_000,
    }
}

#[test]
fn test_caffeine_decay_at_half_life() {
    let sens = test_sensitivity();
    let decayed = caffeine_decay(100_000, 300, &sens);
    // should be ~50mg after 5 hours
    assert!((decayed as f64 / 1000.0 - 50.0).abs() < 0.1);
}

#[test]
fn test_total_caffeine_single_dose() {
    let sens = test_sensitivity();
    let now = Utc.with_ymd_and_hms(2026, 2, 27, 14, 0, 0).unwrap().timestamp();
    let dose_time = Utc.with_ymd_and_hms(2026, 2, 27, 9, 0, 0).unwrap().timestamp();
    let doses = vec![Dose {
        amount_ug: 100_000,
        time_s: dose_time,
    }];

    let total = total_caffeine(&doses, now, &sens);
    // 5 hours have passed, so 100 * 0.5 = 50mg
    assert!((total as f64 / 1000.0 - 50.0).abs() < 0.1);
}

#[test]
fn test_total_caffeine_multiple_doses() {
    let sens = test_sensitivity();
    let now = Utc.with_ymd_and_hms(2026, 2, 27, 14, 0, 0).unwrap().timestamp();
    let doses = vec![
        Dose {
            amount_ug: 100_000,
            time_s: Utc.with_ymd_and_hms(2026, 2, 27, 9, 0, 0).unwrap().timestamp(),
        }, // 5 hours ago: 50mg
        Dose {
            amount_ug: 200_000,
            time_s: Utc.with_ymd_and_hms(2026, 2, 27, 13, 0, 0).unwrap().timestamp(),
        }, // 1 hour ago: 200 * 0.5^(1/5) ~ 171mg
    ];

    let total = total_caffeine(&doses, now, &sens);
    let total_mg = total as f64 / 1000.0;
    assert!(total_mg > 200.0 && total_mg < 230.0); // rough range
}

#[test]
fn test_predicted_crash_in_future() {
    let sens = test_sensitivity();
    let now = Utc.with_ymd_and_hms(2026, 2, 27, 9, 0, 0).unwrap().timestamp();
    let doses = vec![Dose {
        amount_ug: 200_000,
        time_s: now,
    }];

    let crash = predicted_crash(&doses, now, &sens);
    assert!(crash > now); // crash is in the future
    assert!((crash - now) / 3600 > 0);
    assert!((crash - now) / 3600 < 24); // reasonable bound
}

#[test]
fn test_no_doses() {
    let sens = test_sensitivity();
    let now = Utc.with_ymd_and_hms(2026, 2, 27, 14, 0, 0).unwrap().timestamp();
    let doses: Vec<Dose> = vec![];

    let total = total_caffeine(&doses, now, &sens);
    assert_eq!(total, 0);
}

#[test]
fn end_to_end_default_profile() {
    // 200mg two hours ago and 160mg six hours ago at a 5h half-life:
    // 200 * 0.5^(2/5) + 160 * 0.5^(6/5) ~ 221.7mg.
    let sens = UserSensitivity::default();
    let t = Utc.with_ymd_and_hms(2026, 2, 27, 14, 0, 0).unwrap().timestamp();
    let doses = vec![
        Dose {
            amount_ug: 200_000,
            time_s: t - 2 * 3600,
        },
        Dose {
            amount_ug: 160_000,
            time_s: t - 6 * 3600,
        },
    ];
    let total = total_caffeine(&doses, t, &sens);
    assert!((total as f64 / 1000.0 - 221.7).abs() < 0.5);
}

#[test]
fn dose_in_future_contributes_nothing() {
    let sens = test_sensitivity();
    let t = 1_700_000_000;
    let doses = vec![Dose {
        amount_ug: 100_000,
        time_s: t + 3600,
    }];
    assert_eq!(total_caffeine(&doses, t, &sens), 0);
}

#[test]
fn dose_at_instant_contributes_fully() {
    let sens = test_sensitivity();
    let t = 1_700_000_000;
    let doses = vec![Dose {
        amount_ug: 123_456,
        time_s: t,
    }];
    assert_eq!(total_caffeine(&doses, t, &sens), 123_456);
}

#[test]
fn crash_now_when_below_threshold() {
    let sens = test_sensitivity();
    let now = 1_700_000_000;
    let doses: Vec<Dose> = vec![];
    assert_eq!(predicted_crash(&doses, now, &sens), now);

    // 10mg is exactly the threshold: still "already crashed".
    let doses = vec![Dose {
        amount_ug: 10_000,
        time_s: now,
    }];
    assert_eq!(predicted_crash(&doses, now, &sens), now);
}

#[test]
fn crash_time_matches_log_formula() {
    // 200mg over a 10mg threshold at a 5h half-life:
    // 5 * log2(20) hours = 77794.7 s.
    let sens = test_sensitivity();
    let now = 1_700_000_000;
    let doses = vec![Dose {
        amount_ug: 200_000,
        time_s: now,
    }];
    let crash = predicted_crash(&doses, now, &sens);
    assert!((crash - now - 77_795).abs() <= 1);
}

#[test]
fn concentration_decreases_over_time() {
    let sens = test_sensitivity();
    let t0 = 1_700_000_000;
    let doses = vec![Dose {
        amount_ug: 150_000,
        time_s: t0,
    }];
    let mut previous = total_caffeine(&doses, t0, &sens);
    for hour in 1..10 {
        let level = total_caffeine(&doses, t0 + hour * 3600, &sens);
        assert!(level < previous);
        previous = level;
    }
}

#[test]
fn concentration_is_additive() {
    let sens = test_sensitivity();
    let t = 1_700_000_000;
    let d1 = Dose {
        amount_ug: 80_000,
        time_s: t - 3 * 3600,
    };
    let d2 = Dose {
        amount_ug: 120_000,
        time_s: t - 3600,
    };
    let both = total_caffeine(&vec![d1, d2], t, &sens);
    let first = total_caffeine(&vec![d1], t, &sens);
    let second = total_caffeine(&vec![d2], t, &sens);
    assert_eq!(both, first + second);
}
