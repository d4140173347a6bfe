use stimstack::dose::Dose;
use stimstack::sensitivity::UserSensitivity;
use stimstack::sleep::sleep_score;

fn test_sensitivity() -> UserSensitivity {
    UserSensitivity {
        half_life_minutes: 300,
        sleep_decay_ug: 50_000,
        crash_threshold_ug: 10_000,
    }
}

#[test]
fn perfect_score_with_no_caffeine() {
    let sens = test_sensitivity();
    let score = sleep_score(&vec![], 1_700_000_000, &sens);
    assert_eq!(score, 100_000);
}

#[test]
fn score_matches_exponential_formula() {
    // 50mg at bedtime with a 50mg sleep decay: 100 * exp(-1) = 36.788.
    let sens = test_sensitivity();
    let bedtime = 1_700_000_000;
    let doses = vec![Dose {
        amount_ug: 50_000,
        time_s: bedtime,
    }];
    let score = sleep_score(&doses, bedtime, &sens);
    assert!((score as f64 / 1000.0 - 36.788).abs() < 0.01);
}

#[test]
fn score_stays_on_the_scale() {
    let sens = test_sensitivity();
    let bedtime = 1_700_000_000;
    let amounts: [u64; 5] = [0, 10_000, 400_000, 5_000_000, 18_000_000_000_000_000_000];
    for &amount in amounts.iter() {
        let doses = vec![Dose {
            amount_ug: amount,
            time_s: bedtime,
        }];
        let score = sleep_score(&doses, bedtime, &sens);
        assert!(score <= 100_000);
    }
}

#[test]
fn earlier_bedtime_scores_worse() {
    // The later one sleeps after a dose, the less caffeine remains and the
    // better the night.
    let sens = test_sensitivity();
    let dose_time = 1_700_000_000;
    let doses = vec![Dose {
        amount_ug: 200_000,
        time_s: dose_time,
    }];
    let early = sleep_score(&doses, dose_time + 3600, &sens);
    let late = sleep_score(&doses, dose_time + 8 * 3600, &sens);
    assert!(late > early);
}
