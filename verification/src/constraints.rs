use vstd::prelude::*;
use crate::dose::{Dose, spec_minutes_between, minutes_between, spec_amount_sum, amount_sum};

verus! {

/// Safety limits applied to a whole schedule: a daily cap in micrograms, a
/// minimum spacing between adjacent doses in whole minutes, and a cutoff
/// instant in Unix seconds after which no dose may fall.
#[derive(Clone, Copy, PartialEq, Eq, Structural, Debug)]
pub struct Constraints {
    pub max_daily_ug: u64,
    pub min_gap_minutes: i64,
    pub no_caffeine_after_s: i64,
}

/// The schedule's amounts stay within the daily cap.
pub open spec fn spec_within_daily_max(s: Seq<Dose>, c: Constraints) -> bool {
    spec_amount_sum(s) <= c.max_daily_ug
}

/// Every adjacent pair of doses, in the order given, is at least the
/// minimum gap apart. Meaningful on a schedule sorted by time.
pub open spec fn spec_gaps_ok(s: Seq<Dose>, c: Constraints) -> bool {
    forall|i: int| #![trigger s[i]]
        0 <= i && i + 1 < s.len() ==> spec_minutes_between(
            s[i].time_s as int,
            s[i + 1].time_s as int,
        ) >= c.min_gap_minutes
}

/// No dose falls after the cutoff instant.
pub open spec fn spec_before_cutoff(s: Seq<Dose>, c: Constraints) -> bool {
    forall|i: int| 0 <= i < s.len() ==> s[i].time_s <= c.no_caffeine_after_s
}

/// A schedule is valid when all three checks pass.
pub open spec fn spec_valid_schedule(s: Seq<Dose>, c: Constraints) -> bool {
    spec_within_daily_max(s, c) && spec_gaps_ok(s, c) && spec_before_cutoff(s, c)
}

/// Checks a schedule against the safety limits: daily total, adjacent
/// gaps, and the bedtime cutoff, in that order.
pub fn valid_schedule(schedule: &Vec<Dose>, constraints: &Constraints) -> (r: bool)
    ensures
        r == spec_valid_schedule(schedule@, *constraints),
{
    let total: u128 = amount_sum(schedule);
    if total > constraints.max_daily_ug as u128 {
        return false;
    }
    if schedule.len() > 0 {
        let mut i: usize = 0;
        while i < schedule.len() - 1
            invariant
                schedule@.len() > 0,
                i <= schedule@.len() - 1,
                forall|j: int| #![trigger schedule@[j]]
                    0 <= j && j + 1 <= i as int ==> spec_minutes_between(
                        schedule@[j].time_s as int,
                        schedule@[j + 1].time_s as int,
                    ) >= constraints.min_gap_minutes,
            decreases schedule@.len() - i,
        {
            let gap: i64 = minutes_between(schedule[i].time_s, schedule[i + 1].time_s);
            if gap < constraints.min_gap_minutes {
                return false;
            }
            i = i + 1;
        }
    }
    let mut k: usize = 0;
    while k < schedule.len()
        invariant
            k <= schedule@.len(),
            forall|j: int|
                0 <= j < k as int ==> schedule@[j].time_s <= constraints.no_caffeine_after_s,
        decreases schedule@.len() - k,
    {
        if schedule[k].time_s > constraints.no_caffeine_after_s {
            return false;
        }
        k = k + 1;
    }
    true
}

/// A schedule summing above the daily cap is always rejected.
pub proof fn lemma_rejects_over_daily_max(s: Seq<Dose>, c: Constraints)
    requires
        spec_amount_sum(s) > c.max_daily_ug,
    ensures
        !spec_valid_schedule(s, c),
{
}

/// A schedule with any adjacent gap below the minimum is always rejected.
pub proof fn lemma_rejects_short_gap(s: Seq<Dose>, c: Constraints, i: int)
    requires
        0 <= i,
        i + 1 < s.len(),
        spec_minutes_between(s[i].time_s as int, s[i + 1].time_s as int) < c.min_gap_minutes,
    ensures
        !spec_valid_schedule(s, c),
{
}

/// A schedule with any dose after the cutoff is always rejected.
pub proof fn lemma_rejects_after_cutoff(s: Seq<Dose>, c: Constraints, i: int)
    requires
        0 <= i < s.len(),
        s[i].time_s > c.no_caffeine_after_s,
    ensures
        !spec_valid_schedule(s, c),
{
}

} // verus!
