use chrono::{Duration, Utc};
use stimstack::constraints::{valid_schedule, Constraints};
use stimstack::dose::Dose;

#[test]
fn test_valid_schedule() {
    let now = Utc::now().timestamp();
    let schedule = vec![
        Dose {
            amount_ug: 100_000,
            time_s: now - Duration::hours(1).num_seconds(),
        },
        Dose {
            amount_ug: 150_000,
            time_s: now,
        },
        Dose {
            amount_ug: 200_000,
            time_s: now + Duration::hours(1).num_seconds(),
        },
    ];

    let constraints = Constraints {
        max_daily_ug: 400_000,
        min_gap_minutes: 120,
        no_caffeine_after_s: now + Duration::hours(12).num_seconds(),
    };

    assert!(!valid_schedule(&schedule, &constraints));
}

#[test]
fn accepts_schedule_within_all_limits() {
    let base = 1_700_000_000;
    let schedule = vec![
        Dose {
            amount_ug: 100_000,
            time_s: base,
        },
        Dose {
            amount_ug: 150_000,
            time_s: base + 3 * 3600,
        },
    ];
    let constraints = Constraints {
        max_daily_ug: 400_000,
        min_gap_minutes: 120,
        no_caffeine_after_s: base + 12 * 3600,
    };
    assert!(valid_schedule(&schedule, &constraints));
}

#[test]
fn rejects_total_over_daily_max() {
    let base = 1_700_000_000;
    let schedule = vec![
        Dose {
            amount_ug: 250_000,
            time_s: base,
        },
        Dose {
            amount_ug: 200_000,
            time_s: base + 5 * 3600,
        },
    ];
    let constraints = Constraints {
        max_daily_ug: 400_000,
        min_gap_minutes: 60,
        no_caffeine_after_s: base + 12 * 3600,
    };
    assert!(!valid_schedule(&schedule, &constraints));
}

#[test]
fn rejects_gap_below_minimum() {
    let base = 1_700_000_000;
    let schedule = vec![
        Dose {
            amount_ug: 100_000,
            time_s: base,
        },
        Dose {
            amount_ug: 100_000,
            time_s: base + 3600,
        },
    ];
    let constraints = Constraints {
        max_daily_ug: 400_000,
        min_gap_minutes: 120,
        no_caffeine_after_s: base + 12 * 3600,
    };
    assert!(!valid_schedule(&schedule, &constraints));
}

#[test]
fn rejects_dose_after_cutoff() {
    let base = 1_700_000_000;
    let schedule = vec![Dose {
        amount_ug: 100_000,
        time_s: base + 13 * 3600,
    }];
    let constraints = Constraints {
        max_daily_ug: 400_000,
        min_gap_minutes: 60,
        no_caffeine_after_s: base + 12 * 3600,
    };
    assert!(!valid_schedule(&schedule, &constraints));
}

#[test]
fn empty_schedule_is_valid() {
    let constraints = Constraints {
        max_daily_ug: 400_000,
        min_gap_minutes: 60,
        no_caffeine_after_s: 1_700_000_000,
    };
    assert!(valid_schedule(&vec![], &constraints));
}
