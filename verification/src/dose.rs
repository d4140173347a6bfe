use vstd::prelude::*;

verus! {

/// A single caffeine intake event: an amount in micrograms taken at an
/// instant given in Unix seconds.
#[derive(Clone, Copy, PartialEq, Eq, Structural, Debug)]
pub struct Dose {
    pub amount_ug: u64,
    pub time_s: i64,
}

/// Whole minutes from `from` to `to`, truncated toward zero, as a duration
/// between two instants in Unix seconds. Negative when `to` lies before
/// `from` by a full minute or more.
pub open spec fn spec_minutes_between(from: int, to: int) -> int {
    if to >= from {
        (to - from) / 60
    } else {
        -((from - to) / 60)
    }
}

/// Computes `spec_minutes_between` on machine integers.
pub fn minutes_between(from: i64, to: i64) -> (r: i64)
    ensures
        r == spec_minutes_between(from as int, to as int),
{
    if to >= from {
        let d: u64 = (to as i128 - from as i128) as u64;
        proof {
            assert(to - from < 0x1_0000_0000_0000_0000int);
            assert(d == to - from);
        }
        (d / 60) as i64
    } else {
        let d: u64 = (from as i128 - to as i128) as u64;
        proof {
            assert(from - to < 0x1_0000_0000_0000_0000int);
            assert(d == from - to);
        }
        -((d / 60) as i64)
    }
}

/// Sum of the amounts of a schedule, in micrograms.
pub open spec fn spec_amount_sum(s: Seq<Dose>) -> int
    decreases s.len(),
{
    if s.len() == 0 {
        0
    } else {
        s[0].amount_ug + spec_amount_sum(s.subrange(1, s.len() as int))
    }
}

/// The amount sum of a one-longer prefix grows by the amount of the new dose.
pub proof fn lemma_amount_sum_take_step(s: Seq<Dose>, i: int)
    requires
        0 <= i < s.len(),
    ensures
        spec_amount_sum(s.take(i + 1)) == spec_amount_sum(s.take(i)) + s[i].amount_ug,
    decreases i,
{
    if i == 0 {
        assert(s.take(1).subrange(1, 1) =~= s.take(0));
        assert(spec_amount_sum(s.take(0)) == 0);
    } else {
        lemma_amount_sum_take_step(s.subrange(1, s.len() as int), i - 1);
        assert(s.take(i + 1).subrange(1, i + 1) =~= s.subrange(1, s.len() as int).take(i));
        assert(s.take(i).subrange(1, i) =~= s.subrange(1, s.len() as int).take(i - 1));
        assert(s.subrange(1, s.len() as int)[i - 1] == s[i]);
    }
}

/// A prefix never sums to more than the whole schedule.
pub proof fn lemma_amount_sum_take_le(s: Seq<Dose>, i: int)
    requires
        0 <= i <= s.len(),
    ensures
        spec_amount_sum(s.take(i)) <= spec_amount_sum(s),
    decreases s.len() - i,
{
    if i == s.len() {
        assert(s.take(i) =~= s);
    } else {
        lemma_amount_sum_take_step(s, i);
        lemma_amount_sum_take_le(s, i + 1);
    }
}

/// Sums the amounts of a schedule without overflow.
pub fn amount_sum(doses: &Vec<Dose>) -> (r: u128)
    ensures
        r == spec_amount_sum(doses@),
{
    let mut total: u128 = 0;
    let mut i: usize = 0;
    proof {
        assert(doses@.take(0) =~= Seq::<Dose>::empty());
    }
    while i < doses.len()
        invariant
            0 <= i <= doses@.len(),
            total == spec_amount_sum(doses@.take(i as int)),
            total <= i * 0xFFFF_FFFF_FFFF_FFFFu64,
        decreases doses@.len() - i,
    {
        proof {
            lemma_amount_sum_take_step(doses@, i as int);
            assert((i + 1) * 0xFFFF_FFFF_FFFF_FFFFu64
                == i * 0xFFFF_FFFF_FFFF_FFFFu64 + 0xFFFF_FFFF_FFFF_FFFFu64)
                by (nonlinear_arith);
            assert(i * 0xFFFF_FFFF_FFFF_FFFFu64 <= 0xFFFF_FFFF_FFFF_FFFFu64
                * 0xFFFF_FFFF_FFFF_FFFFu64) by (nonlinear_arith)
                requires i <= 0xFFFF_FFFF_FFFF_FFFFu64;
        }
        total = total + doses[i].amount_ug as u128;
        i = i + 1;
    }
    proof {
        assert(doses@.take(doses@.len() as int) =~= doses@);
    }
    total
}

} // verus!
