use chrono::{Duration, Utc};
use stimstack::constraints::{valid_schedule, Constraints};
use stimstack::dose::Dose;
use stimstack::optimizer::{optimize_schedule, score_schedule, sort_by_time, OptimizationParams};
use stimstack::sensitivity::UserSensitivity;

#[test]
fn test_optimizer_respects_constraints() {
    let now = Utc::now().timestamp();

    let constraints = Constraints {
        max_daily_ug: 300_000,
        min_gap_minutes: 240,
        no_caffeine_after_s: now + Duration::hours(12).num_seconds(),
    };

    let params = OptimizationParams {
        dose_options_ug: vec![50_000, 100_000],
        step_minutes: 60,
    };

    let schedule = optimize_schedule(
        &vec![],
        &constraints,
        &params,
        now + Duration::hours(1).num_seconds(),
        now + Duration::hours(8).num_seconds(),
    );

    // Check constraints
    assert!(valid_schedule(&schedule, &constraints));

    // Check total caffeine
    let total: u64 = schedule.iter().map(|d| d.amount_ug).sum();
    assert!(total <= 300_000);

    println!("Optimized schedule:");
    for d in &schedule {
        println!("{:?}", d);
    }
}

#[test]
fn no_dose_options_returns_existing_unchanged() {
    let base = 1_700_000_000;
    let existing = vec![
        Dose {
            amount_ug: 90_000,
            time_s: base + 7200,
        },
        Dose {
            amount_ug: 50_000,
            time_s: base + 600,
        },
    ];
    let constraints = Constraints {
        max_daily_ug: 400_000,
        min_gap_minutes: 60,
        no_caffeine_after_s: base + 12 * 3600,
    };
    let params = OptimizationParams {
        dose_options_ug: vec![],
        step_minutes: 30,
    };
    let result = optimize_schedule(&existing, &constraints, &params, base, base + 8 * 3600);
    assert_eq!(result, existing);
}

#[test]
fn inverted_window_returns_existing_unchanged() {
    let base = 1_700_000_000;
    let existing = vec![Dose {
        amount_ug: 70_000,
        time_s: base,
    }];
    let constraints = Constraints {
        max_daily_ug: 400_000,
        min_gap_minutes: 60,
        no_caffeine_after_s: base + 12 * 3600,
    };
    let params = OptimizationParams {
        dose_options_ug: vec![50_000],
        step_minutes: 30,
    };
    let result = optimize_schedule(&existing, &constraints, &params, base + 3600, base);
    assert_eq!(result, existing);
}

#[test]
fn utility_sums_quarter_hour_samples() {
    // One 100mg dose at the window start, 5h half-life, a 30-minute window:
    // samples at 0, 15 and 30 minutes are 100, 100 * 2^-0.05 and
    // 100 * 2^-0.1 mg, summing to ~289.897mg.
    let sens = UserSensitivity::default();
    let base = 1_700_000_000;
    let doses = vec![Dose {
        amount_ug: 100_000,
        time_s: base,
    }];
    let score = score_schedule(&doses, base, base + 1800, &sens);
    assert!((score as i64 - 289_897).abs() <= 3);
}

#[test]
fn sort_is_stable_and_keeps_every_dose() {
    let base = 1_700_000_000;
    let unsorted = vec![
        Dose {
            amount_ug: 3,
            time_s: base + 60,
        },
        Dose {
            amount_ug: 1,
            time_s: base,
        },
        Dose {
            amount_ug: 2,
            time_s: base + 60,
        },
    ];
    let sorted = sort_by_time(&unsorted);
    // the dose at `base` first, then the two equal timestamps in their
    // original relative order
    assert_eq!(
        sorted,
        vec![
            Dose {
                amount_ug: 1,
                time_s: base,
            },
            Dose {
                amount_ug: 3,
                time_s: base + 60,
            },
            Dose {
                amount_ug: 2,
                time_s: base + 60,
            },
        ]
    );
}

#[test]
fn optimizer_never_lowers_utility() {
    let base = 1_700_000_000;
    let sens = UserSensitivity::default();
    let existing = vec![Dose {
        amount_ug: 100_000,
        time_s: base,
    }];
    let constraints = Constraints {
        max_daily_ug: 250_000,
        min_gap_minutes: 120,
        no_caffeine_after_s: base + 10 * 3600,
    };
    let params = OptimizationParams {
        dose_options_ug: vec![50_000, 100_000],
        step_minutes: 60,
    };
    let start = base + 3600;
    let end = base + 6 * 3600;
    let before = score_schedule(&existing, start, end, &sens);
    let result = optimize_schedule(&existing, &constraints, &params, start, end);
    let after = score_schedule(&result, start, end, &sens);
    assert!(after >= before);
    assert!(valid_schedule(&result, &constraints));
}

#[test]
fn optimizer_fills_an_empty_window() {
    let base = 1_700_000_000;
    let constraints = Constraints {
        max_daily_ug: 400_000,
        min_gap_minutes: 60,
        no_caffeine_after_s: base + 12 * 3600,
    };
    let params = OptimizationParams {
        dose_options_ug: vec![100_000],
        step_minutes: 120,
    };
    let result = optimize_schedule(&vec![], &constraints, &params, base, base + 4 * 3600);
    // With room under every limit, the greedy pass adopts at least one dose.
    assert!(!result.is_empty());
    assert!(valid_schedule(&result, &constraints));
}
