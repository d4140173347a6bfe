use vstd::prelude::*;
use crate::caffeine::{spec_total, total_caffeine};
use crate::constraints::{Constraints, spec_valid_schedule, valid_schedule};
use crate::dose::{Dose, spec_amount_sum};
use crate::sensitivity::{UserSensitivity, spec_default_sensitivity, spec_valid_sensitivity};

verus! {

/// Knobs of the schedule search: the candidate dose sizes in micrograms,
/// and the spacing of the time grid in whole minutes.
#[derive(Debug, Clone)]
pub struct OptimizationParams {
    pub dose_options_ug: Vec<u64>,
    pub step_minutes: i64,
}

/// The utility of a schedule over a window: the concentration sampled every
/// fifteen minutes from `t` to `end` inclusive and summed, approximating
/// the area under the concentration curve.
pub open spec fn spec_utility(doses: Seq<Dose>, t: int, end: int, s: UserSensitivity) -> int
    decreases end + 900 - t,
{
    if t > end {
        0
    } else {
        spec_total(doses, t, s) + spec_utility(doses, t + 900, end, s)
    }
}

/// Where a new dose lands in a schedule ordered by time: after every dose
/// taken no later than it.
pub open spec fn spec_insert_pos(s: Seq<Dose>, d: Dose) -> int
    decreases s.len(),
{
    if s.len() == 0 {
        0
    } else if s[0].time_s <= d.time_s {
        1 + spec_insert_pos(s.subrange(1, s.len() as int), d)
    } else {
        0
    }
}

/// A schedule with one more dose, placed at its position in time order
/// (after any dose sharing its timestamp).
pub open spec fn spec_insert_sorted(s: Seq<Dose>, d: Dose) -> Seq<Dose> {
    let p = spec_insert_pos(s, d);
    s.take(p) + seq![d] + s.skip(p)
}

/// A schedule re-ordered by time, stably: doses are inserted one by one,
/// each after any earlier dose with the same timestamp.
pub open spec fn spec_sort(s: Seq<Dose>) -> Seq<Dose>
    decreases s.len(),
{
    if s.len() == 0 {
        Seq::empty()
    } else {
        spec_insert_sorted(spec_sort(s.drop_last()), s.last())
    }
}

/// The doses of a schedule stand in time order.
pub open spec fn spec_sorted_by_time(s: Seq<Dose>) -> bool {
    forall|i: int| #![trigger s[i]]
        0 <= i && i + 1 < s.len() ==> s[i].time_s <= s[i + 1].time_s
}

/// The insertion position lies within the schedule; every dose before it
/// is no later than the new dose, and the dose standing at it, if any, is
/// strictly later.
pub proof fn lemma_insert_pos_props(s: Seq<Dose>, d: Dose)
    ensures
        0 <= spec_insert_pos(s, d) <= s.len(),
        forall|j: int| 0 <= j < spec_insert_pos(s, d) ==> #[trigger] s[j].time_s <= d.time_s,
        spec_insert_pos(s, d) < s.len() ==> s[spec_insert_pos(s, d)].time_s > d.time_s,
    decreases s.len(),
{
    if s.len() > 0 && s[0].time_s <= d.time_s {
        let tail = s.subrange(1, s.len() as int);
        lemma_insert_pos_props(tail, d);
        let p = spec_insert_pos(s, d);
        assert forall|j: int| 0 <= j < p implies #[trigger] s[j].time_s <= d.time_s by {
            if j >= 1 {
                assert(tail[j - 1] == s[j]);
            }
        }
        if p < s.len() {
            assert(tail[p - 1] == s[p]);
        }
    }
}

/// Inserting into a time-ordered schedule keeps it time-ordered.
pub proof fn lemma_insert_sorted_ordered(s: Seq<Dose>, d: Dose)
    requires
        spec_sorted_by_time(s),
    ensures
        spec_sorted_by_time(spec_insert_sorted(s, d)),
{
    lemma_insert_pos_props(s, d);
    let p = spec_insert_pos(s, d);
    let r = spec_insert_sorted(s, d);
    assert forall|i: int| #![trigger r[i]] 0 <= i && i + 1 < r.len() implies r[i].time_s <= r[i
        + 1].time_s by {
        if i + 1 < p {
            assert(r[i] == s[i]);
            assert(r[i + 1] == s[i + 1]);
        } else if i + 1 == p {
            assert(r[i] == s[i]);
            assert(r[i + 1] == d);
        } else if i == p {
            assert(r[i] == d);
            assert(r[i + 1] == s[i]);
        } else {
            assert(r[i] == s[i - 1]);
            assert(r[i + 1] == s[i]);
        }
    }
}

/// Insertion adds exactly the new dose: the doses of the result, as a
/// multiset, are the old ones plus the inserted one.
pub proof fn lemma_insert_sorted_multiset(s: Seq<Dose>, d: Dose)
    ensures
        spec_insert_sorted(s, d).to_multiset() == s.to_multiset().insert(d),
{
    broadcast use vstd::seq_lib::group_to_multiset_ensures;

    lemma_insert_pos_props(s, d);
    let p = spec_insert_pos(s, d);
    assert(s.take(p) + seq![d] =~= s.take(p).push(d));
    vstd::seq_lib::lemma_multiset_commutative(s.take(p).push(d), s.skip(p));
    vstd::seq_lib::lemma_multiset_commutative(s.take(p), s.skip(p));
    assert(s.take(p) + s.skip(p) =~= s);
    assert(spec_insert_sorted(s, d).to_multiset() =~= s.to_multiset().insert(d));
}

/// Sorting re-orders the schedule by time and neither adds nor drops a
/// dose.
pub proof fn lemma_sort_props(s: Seq<Dose>)
    ensures
        spec_sorted_by_time(spec_sort(s)),
        spec_sort(s).to_multiset() == s.to_multiset(),
    decreases s.len(),
{
    broadcast use vstd::seq_lib::group_to_multiset_ensures;

    if s.len() == 0 {
    } else {
        lemma_sort_props(s.drop_last());
        lemma_insert_sorted_ordered(spec_sort(s.drop_last()), s.last());
        lemma_insert_sorted_multiset(spec_sort(s.drop_last()), s.last());
        assert(s.drop_last().push(s.last()) =~= s);
    }
}

/// One grid instant of the greedy search: each candidate amount in turn,
/// placed at `t` into the running best schedule; a candidate that is valid
/// and strictly improves the utility becomes the new running best. The
/// state is (best schedule, the same schedule in time order, its utility).
pub open spec fn spec_opt_options(
    cur: Seq<Dose>,
    cur_sorted: Seq<Dose>,
    cur_score: int,
    t: int,
    opts: Seq<u64>,
    j: int,
    c: Constraints,
    start: int,
    end: int,
    s: UserSensitivity,
) -> (Seq<Dose>, Seq<Dose>, int)
    decreases opts.len() - j,
{
    if j < 0 || j >= opts.len() {
        (cur, cur_sorted, cur_score)
    } else {
        let cand = spec_insert_sorted(cur_sorted, Dose { amount_ug: opts[j], time_s: t as i64 });
        if spec_valid_schedule(cand, c) && spec_utility(cand, start, end, s) > cur_score {
            spec_opt_options(
                cand,
                cand,
                spec_utility(cand, start, end, s),
                t,
                opts,
                j + 1,
                c,
                start,
                end,
                s,
            )
        } else {
            spec_opt_options(cur, cur_sorted, cur_score, t, opts, j + 1, c, start, end, s)
        }
    }
}

/// The whole greedy scan: grid instants from `t` to `end` in steps of
/// `step_s` seconds, each feeding the running best through
/// `spec_opt_options`. Path dependent by design: later instants build on
/// what earlier instants adopted.
pub open spec fn spec_opt_grid(
    cur: Seq<Dose>,
    cur_sorted: Seq<Dose>,
    cur_score: int,
    t: int,
    step_s: int,
    opts: Seq<u64>,
    c: Constraints,
    start: int,
    end: int,
    s: UserSensitivity,
) -> (Seq<Dose>, Seq<Dose>, int)
    decreases end + step_s - t
        when step_s >= 1
{
    if t > end {
        (cur, cur_sorted, cur_score)
    } else {
        let st = spec_opt_options(cur, cur_sorted, cur_score, t, opts, 0, c, start, end, s);
        spec_opt_grid(st.0, st.1, st.2, t + step_s, step_s, opts, c, start, end, s)
    }
}

/// The schedule the optimizer returns: the greedy scan started from the
/// unmodified existing schedule and its utility, with doses sized from
/// `opts` on a grid of `step_minutes` minutes across `[start, end]`.
pub open spec fn spec_optimize(
    existing: Seq<Dose>,
    c: Constraints,
    opts: Seq<u64>,
    step_minutes: int,
    start: int,
    end: int,
    s: UserSensitivity,
) -> Seq<Dose> {
    spec_opt_grid(
        existing,
        spec_sort(existing),
        spec_utility(existing, start, end, s),
        start,
        step_minutes * 60,
        opts,
        c,
        start,
        end,
        s,
    ).0
}

/// Scanning the candidate amounts never lowers the running score, and
/// leaves the state either untouched or holding a valid schedule scored by
/// its own utility.
pub proof fn lemma_opt_options_props(
    cur: Seq<Dose>,
    cur_sorted: Seq<Dose>,
    cur_score: int,
    t: int,
    opts: Seq<u64>,
    j: int,
    c: Constraints,
    start: int,
    end: int,
    s: UserSensitivity,
)
    requires
        spec_sorted_by_time(cur_sorted),
    ensures
        ({
            let st = spec_opt_options(cur, cur_sorted, cur_score, t, opts, j, c, start, end, s);
            st.2 >= cur_score && spec_sorted_by_time(st.1) && ((st.0 == cur && st.1 == cur_sorted
                && st.2 == cur_score) || (st.0 == st.1 && spec_valid_schedule(st.0, c) && st.2
                == spec_utility(st.0, start, end, s)))
        }),
    decreases opts.len() - j,
{
    if 0 <= j < opts.len() {
        let cand = spec_insert_sorted(cur_sorted, Dose { amount_ug: opts[j], time_s: t as i64 });
        lemma_insert_sorted_ordered(cur_sorted, Dose { amount_ug: opts[j], time_s: t as i64 });
        if spec_valid_schedule(cand, c) && spec_utility(cand, start, end, s) > cur_score {
            lemma_opt_options_props(
                cand,
                cand,
                spec_utility(cand, start, end, s),
                t,
                opts,
                j + 1,
                c,
                start,
                end,
                s,
            );
        } else {
            lemma_opt_options_props(cur, cur_sorted, cur_score, t, opts, j + 1, c, start, end, s);
        }
    }
}

/// The whole scan never lowers the score, and returns either the starting
/// state or a valid schedule scored by its own utility.
pub proof fn lemma_opt_grid_props(
    cur: Seq<Dose>,
    cur_sorted: Seq<Dose>,
    cur_score: int,
    t: int,
    step_s: int,
    opts: Seq<u64>,
    c: Constraints,
    start: int,
    end: int,
    s: UserSensitivity,
)
    requires
        step_s >= 1,
        spec_sorted_by_time(cur_sorted),
    ensures
        ({
            let st = spec_opt_grid(cur, cur_sorted, cur_score, t, step_s, opts, c, start, end, s);
            st.2 >= cur_score && spec_sorted_by_time(st.1) && ((st.0 == cur && st.1 == cur_sorted
                && st.2 == cur_score) || (st.0 == st.1 && spec_valid_schedule(st.0, c) && st.2
                == spec_utility(st.0, start, end, s)))
        }),
    decreases end + step_s - t,
{
    if t <= end {
        lemma_opt_options_props(cur, cur_sorted, cur_score, t, opts, 0, c, start, end, s);
        let st = spec_opt_options(cur, cur_sorted, cur_score, t, opts, 0, c, start, end, s);
        lemma_opt_grid_props(st.0, st.1, st.2, t + step_s, step_s, opts, c, start, end, s);
    }
}

/// With no candidate amounts at all, the scan cannot change its state.
pub proof fn lemma_opt_grid_noop(
    cur: Seq<Dose>,
    cur_sorted: Seq<Dose>,
    cur_score: int,
    t: int,
    step_s: int,
    opts: Seq<u64>,
    c: Constraints,
    start: int,
    end: int,
    s: UserSensitivity,
)
    requires
        step_s >= 1,
        opts.len() == 0,
    ensures
        spec_opt_grid(cur, cur_sorted, cur_score, t, step_s, opts, c, start, end, s) == (
        cur,
        cur_sorted,
        cur_score,
        ),
    decreases end + step_s - t,
{
    if t <= end {
        lemma_opt_grid_noop(cur, cur_sorted, cur_score, t + step_s, step_s, opts, c, start, end, s);
    }
}

/// A copy of a schedule, element for element.
fn clone_doses(v: &Vec<Dose>) -> (r: Vec<Dose>)
    ensures
        r@ == v@,
{
    let mut r: Vec<Dose> = Vec::new();
    let mut i: usize = 0;
    while i < v.len()
        invariant
            i <= v@.len(),
            r@ == v@.take(i as int),
        decreases v@.len() - i,
    {
        r.push(v[i]);
        proof {
            assert(v@.take(i + 1) =~= v@.take(i as int).push(v@[i as int]));
        }
        i = i + 1;
    }
    proof {
        assert(v@.take(v@.len() as int) =~= v@);
    }
    r
}

/// Inserts a dose into a schedule at its position in time order.
fn insert_sorted(v: &mut Vec<Dose>, d: Dose)
    ensures
        final(v)@ == spec_insert_sorted(old(v)@, d),
{
    let mut pos: usize = 0;
    proof {
        assert(v@.skip(0) =~= v@);
    }
    while pos < v.len() && v[pos].time_s <= d.time_s
        invariant
            pos <= v@.len(),
            v@ == old(v)@,
            spec_insert_pos(old(v)@, d) == pos + spec_insert_pos(v@.skip(pos as int), d),
        decreases v@.len() - pos,
    {
        proof {
            assert(v@.skip(pos as int)[0] == v@[pos as int]);
            assert(v@.skip(pos as int).subrange(1, v@.skip(pos as int).len() as int) =~= v@.skip(
                pos as int + 1,
            ));
        }
        pos = pos + 1;
    }
    proof {
        if pos < v@.len() {
            assert(v@.skip(pos as int)[0] == v@[pos as int]);
            assert(spec_insert_pos(v@.skip(pos as int), d) == 0);
        } else {
            assert(v@.skip(pos as int) =~= Seq::<Dose>::empty());
            assert(spec_insert_pos(v@.skip(pos as int), d) == 0);
        }
        assert(spec_insert_pos(old(v)@, d) == pos);
    }
    v.insert(pos, d);
    proof {
        assert(v@ =~= old(v)@.take(pos as int) + seq![d] + old(v)@.skip(pos as int));
    }
}

/// Re-orders a schedule by time, stably, by insertion: the result holds
/// exactly the given doses, in time order.
pub fn sort_by_time(v: &Vec<Dose>) -> (r: Vec<Dose>)
    ensures
        r@ == spec_sort(v@),
        spec_sorted_by_time(r@),
        r@.to_multiset() == v@.to_multiset(),
{
    proof {
        lemma_sort_props(v@);
    }
    let mut r: Vec<Dose> = Vec::new();
    let mut i: usize = 0;
    while i < v.len()
        invariant
            i <= v@.len(),
            r@ == spec_sort(v@.take(i as int)),
        decreases v@.len() - i,
    {
        insert_sorted(&mut r, v[i]);
        proof {
            assert(v@.take(i + 1).drop_last() =~= v@.take(i as int));
            assert(v@.take(i + 1).last() == v@[i as int]);
        }
        i = i + 1;
    }
    proof {
        assert(v@.take(v@.len() as int) =~= v@);
    }
    r
}

/// The utility of a schedule across `[work_start, work_end]`: concentration
/// sampled on the fifteen-minute grid and summed.
pub fn score_schedule(doses: &Vec<Dose>, work_start: i64, work_end: i64, s: &UserSensitivity) -> (r:
    u128)
    requires
        spec_valid_sensitivity(*s),
        spec_amount_sum(doses@) <= u64::MAX,
    ensures
        r == spec_utility(doses@, work_start as int, work_end as int, *s),
{
    let mut score: u128 = 0;
    let mut t: i128 = work_start as i128;
    while t <= work_end as i128
        invariant
            spec_valid_sensitivity(*s),
            spec_amount_sum(doses@) <= u64::MAX,
            work_start as i128 <= t,
            900 * score <= (t - work_start) * 0xFFFF_FFFF_FFFF_FFFFu64,
            spec_utility(doses@, work_start as int, work_end as int, *s) == score + spec_utility(
                doses@,
                t as int,
                work_end as int,
                *s,
            ),
        decreases work_end as int + 900 - t,
    {
        let c: u64 = total_caffeine(doses, t as i64, s);
        proof {
            assert((t - work_start) * 0xFFFF_FFFF_FFFF_FFFFu64 <= (0x1_0000_0000_0000_0000i128
                * 0x1_0000_0000_0000_0000i128)) by (nonlinear_arith)
                requires
                    0 <= t - work_start <= 0x1_0000_0000_0000_0000i128,
            ;
            assert(900 * (score + c) <= (t + 900 - work_start) * 0xFFFF_FFFF_FFFF_FFFFu64)
                by (nonlinear_arith)
                requires
                    900 * score <= (t - work_start) * 0xFFFF_FFFF_FFFF_FFFFu64,
                    c <= 0xFFFF_FFFF_FFFF_FFFFu64,
            ;
        }
        score = score + c as u128;
        t = t + 900;
    }
    score
}

/// Searches for extra doses that raise the utility of the window
/// `[work_start, work_end]` while keeping the whole schedule valid: a
/// greedy single pass over the time grid, evaluated with the default
/// sensitivity profile. If nothing both validates and improves, the
/// existing schedule comes back unchanged.
pub fn optimize_schedule(
    doses_so_far: &Vec<Dose>,
    constraints: &Constraints,
    params: &OptimizationParams,
    work_start: i64,
    work_end: i64,
) -> (r: Vec<Dose>)
    requires
        params.step_minutes >= 1,
        spec_amount_sum(doses_so_far@) <= u64::MAX,
    ensures
        r@ == spec_optimize(
            doses_so_far@,
            *constraints,
            params.dose_options_ug@,
            params.step_minutes as int,
            work_start as int,
            work_end as int,
            spec_default_sensitivity(),
        ),
        spec_utility(r@, work_start as int, work_end as int, spec_default_sensitivity())
            >= spec_utility(
            doses_so_far@,
            work_start as int,
            work_end as int,
            spec_default_sensitivity(),
        ),
        r@ == doses_so_far@ || (spec_valid_schedule(r@, *constraints) && spec_sorted_by_time(r@)),
        spec_valid_schedule(doses_so_far@, *constraints) ==> spec_valid_schedule(r@, *constraints),
        params.dose_options_ug@.len() == 0 ==> r@ == doses_so_far@,
        work_start > work_end ==> r@ == doses_so_far@,
{
    let sens = UserSensitivity::default();
    let ghost c0: Constraints = *constraints;
    let ghost opts: Seq<u64> = params.dose_options_ug@;
    let ghost step_spec: int = params.step_minutes as int * 60;
    let ghost u0: int = spec_utility(
        doses_so_far@,
        work_start as int,
        work_end as int,
        spec_default_sensitivity(),
    );
    let mut best: Vec<Dose> = clone_doses(doses_so_far);
    let mut best_sorted: Vec<Dose> = sort_by_time(doses_so_far);
    let mut best_score: u128 = score_schedule(&best, work_start, work_end, &sens);
    let step_s: i128 = (params.step_minutes as i128) * 60;
    let mut t: i128 = work_start as i128;
    while t <= work_end as i128
        invariant
            sens == spec_default_sensitivity(),
            spec_valid_sensitivity(sens),
            step_s == step_spec,
            step_s == params.step_minutes as int * 60,
            1 <= step_s,
            opts == params.dose_options_ug@,
            c0 == *constraints,
            work_start as i128 <= t,
            spec_opt_grid(
                best@,
                best_sorted@,
                best_score as int,
                t as int,
                step_spec,
                opts,
                c0,
                work_start as int,
                work_end as int,
                sens,
            ) == spec_opt_grid(
                doses_so_far@,
                spec_sort(doses_so_far@),
                u0,
                work_start as int,
                step_spec,
                opts,
                c0,
                work_start as int,
                work_end as int,
                sens,
            ),
        decreases work_end as int + step_s - t,
    {
        let ghost b0: Seq<Dose> = best@;
        let ghost bs0: Seq<Dose> = best_sorted@;
        let ghost sc0: int = best_score as int;
        let mut j: usize = 0;
        while j < params.dose_options_ug.len()
            invariant
                sens == spec_default_sensitivity(),
                spec_valid_sensitivity(sens),
                j <= opts.len(),
                opts == params.dose_options_ug@,
                c0 == *constraints,
                work_start as i128 <= t <= work_end as i128,
                spec_opt_options(
                    best@,
                    best_sorted@,
                    best_score as int,
                    t as int,
                    opts,
                    j as int,
                    c0,
                    work_start as int,
                    work_end as int,
                    sens,
                ) == spec_opt_options(
                    b0,
                    bs0,
                    sc0,
                    t as int,
                    opts,
                    0,
                    c0,
                    work_start as int,
                    work_end as int,
                    sens,
                ),
            decreases opts.len() - j,
        {
            let ghost pj: int = j as int;
            let ghost pb: Seq<Dose> = best@;
            let ghost pbs: Seq<Dose> = best_sorted@;
            let ghost psc: int = best_score as int;
            let d = Dose { amount_ug: params.dose_options_ug[j], time_s: t as i64 };
            let ghost cand_spec: Seq<Dose> = spec_insert_sorted(pbs, d);
            let mut cand: Vec<Dose> = clone_doses(&best_sorted);
            insert_sorted(&mut cand, d);
            let ghost adopted_spec: bool = spec_valid_schedule(cand_spec, c0) && spec_utility(
                cand_spec,
                work_start as int,
                work_end as int,
                sens,
            ) > psc;
            if valid_schedule(&cand, constraints) {
                proof {
                    assert(spec_amount_sum(cand@) <= constraints.max_daily_ug);
                }
                let sc: u128 = score_schedule(&cand, work_start, work_end, &sens);
                if sc > best_score {
                    best = clone_doses(&cand);
                    best_sorted = cand;
                    best_score = sc;
                }
            }
            j = j + 1;
            proof {
                assert(spec_opt_options(
                    pb,
                    pbs,
                    psc,
                    t as int,
                    opts,
                    pj,
                    c0,
                    work_start as int,
                    work_end as int,
                    sens,
                ) == (if adopted_spec {
                    spec_opt_options(
                        cand_spec,
                        cand_spec,
                        spec_utility(cand_spec, work_start as int, work_end as int, sens),
                        t as int,
                        opts,
                        pj + 1,
                        c0,
                        work_start as int,
                        work_end as int,
                        sens,
                    )
                } else {
                    spec_opt_options(
                        pb,
                        pbs,
                        psc,
                        t as int,
                        opts,
                        pj + 1,
                        c0,
                        work_start as int,
                        work_end as int,
                        sens,
                    )
                }));
            }
        }
        t = t + step_s;
    }
    proof {
        lemma_sort_props(doses_so_far@);
        lemma_opt_grid_props(
            doses_so_far@,
            spec_sort(doses_so_far@),
            u0,
            work_start as int,
            step_spec,
            opts,
            c0,
            work_start as int,
            work_end as int,
            sens,
        );
        if opts.len() == 0 {
            lemma_opt_grid_noop(
                doses_so_far@,
                spec_sort(doses_so_far@),
                u0,
                work_start as int,
                step_spec,
                opts,
                c0,
                work_start as int,
                work_end as int,
                sens,
            );
        }
    }
    best
}

} // verus!
