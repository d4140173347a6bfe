use vstd::prelude::*;
use vstd::arithmetic::power2::{pow2, lemma2_to64, lemma_pow2_unfold, lemma_pow2_strictly_increases};

verus! {

/// The integer square root, rounded down.
pub open spec fn sqrt_floor(n: nat) -> nat
    decreases n,
{
    if n == 0 {
        0
    } else {
        let r = sqrt_floor((n - 1) as nat);
        if (r + 1) * (r + 1) <= n {
            r + 1
        } else {
            r
        }
    }
}

/// `sqrt_floor(n)` is the unique `r` with `r^2 <= n < (r+1)^2`.
pub proof fn lemma_sqrt_floor_props(n: nat)
    ensures
        sqrt_floor(n) * sqrt_floor(n) <= n,
        n < (sqrt_floor(n) + 1) * (sqrt_floor(n) + 1),
    decreases n,
{
    if n == 0 {
        assert(sqrt_floor(n) == 0);
        assert(sqrt_floor(n) * sqrt_floor(n) <= n);
        assert(n < (sqrt_floor(n) + 1) * (sqrt_floor(n) + 1)) by (nonlinear_arith)
            requires
                n == 0,
                sqrt_floor(n) == 0,
        ;
    } else {
        lemma_sqrt_floor_props((n - 1) as nat);
        let r = sqrt_floor((n - 1) as nat);
        assert(sqrt_floor(n) == if (r + 1) * (r + 1) <= n { r + 1 } else { r });
        if (r + 1) * (r + 1) <= n {
            assert((r + 1) * (r + 1) < (r + 2) * (r + 2)) by (nonlinear_arith);
            assert(sqrt_floor(n) * sqrt_floor(n) <= n);
            assert(n < (sqrt_floor(n) + 1) * (sqrt_floor(n) + 1));
        } else {
            assert(sqrt_floor(n) * sqrt_floor(n) <= n);
            assert(n < (sqrt_floor(n) + 1) * (sqrt_floor(n) + 1));
        }
    }
}

pub proof fn lemma_sqrt_floor_unique(n: nat, r: nat)
    requires
        r * r <= n,
        n < (r + 1) * (r + 1),
    ensures
        r == sqrt_floor(n),
{
    let s = sqrt_floor(n);
    lemma_sqrt_floor_props(n);
    if r < s {
        assert((r + 1) * (r + 1) <= s * s) by (nonlinear_arith)
            requires r + 1 <= s;
    }
    if s < r {
        assert((s + 1) * (s + 1) <= r * r) by (nonlinear_arith)
            requires s + 1 <= r;
    }
}

/// Computes the integer square root by binary search.
pub fn isqrt(n: u128) -> (r: u128)
    ensures
        r == sqrt_floor(n as nat),
        r < 0x1_0000_0000_0000_0000u128,
{
    let mut lo: u128 = 0;
    let mut hi: u128 = 0x1_0000_0000_0000_0000;
    proof {
        assert(0x1_0000_0000_0000_0000int * 0x1_0000_0000_0000_0000int
            == 0x1_0000_0000_0000_0000_0000_0000_0000_0000int) by (nonlinear_arith);
    }
    while lo + 1 < hi
        invariant
            lo < hi <= 0x1_0000_0000_0000_0000u128,
            lo * lo <= n,
            n < hi * hi,
        decreases hi - lo,
    {
        let mid: u128 = lo + (hi - lo) / 2;
        proof {
            assert(mid * mid < 0x1_0000_0000_0000_0000_0000_0000_0000_0000int)
                by (nonlinear_arith)
                requires mid < 0x1_0000_0000_0000_0000u128;
        }
        if mid * mid <= n {
            lo = mid;
        } else {
            hi = mid;
        }
    }
    proof {
        lemma_sqrt_floor_unique(n as nat, lo as nat);
    }
    lo
}

/// One run of the binary exponential bit scan: `acc` is the Q32 product so
/// far, `c` is the Q32 value of `2^(-2^-(33-i))`, and `rem` holds the bits of
/// the exponent still to process, all below `pow2(i)`.
pub open spec fn spec_exp2_step(rem: int, i: nat, acc: int, c: int) -> int
    decreases i,
{
    if i == 0 {
        acc
    } else {
        let w = pow2((i - 1) as nat) as int;
        let acc2 = if rem >= w { acc * c / 0x1_0000_0000 } else { acc };
        let rem2 = if rem >= w { rem - w } else { rem };
        spec_exp2_step(rem2, (i - 1) as nat, acc2, sqrt_floor((c * 0x1_0000_0000) as nat) as int)
    }
}

/// Q32 value of `2^(-x / 2^32)` for `0 <= x < 2^32`, as the bit-scan
/// computes it: the square-root chain `2^-(1/2)`, `2^-(1/4)`, ... multiplied
/// in wherever the matching bit of `x` is set.
pub open spec fn spec_exp2_frac(x: int) -> int {
    spec_exp2_step(x, 32, 0x1_0000_0000, sqrt_floor(0x8000_0000_0000_0000 as nat) as int)
}

/// Computes `spec_exp2_frac`. The result never exceeds one in Q32, and is
/// strictly below one as soon as the exponent is not zero.
pub fn exp2_frac(x: u64) -> (r: u64)
    requires
        x < 0x1_0000_0000u64,
    ensures
        r == spec_exp2_frac(x as int),
        r <= 0x1_0000_0000u64,
        x >= 1 ==> r < 0x1_0000_0000u64,
{
    let mut acc: u64 = 0x1_0000_0000;
    let c0: u128 = isqrt(0x8000_0000_0000_0000);
    proof {
        lemma_sqrt_floor_props(0x8000_0000_0000_0000 as nat);
        assert(sqrt_floor(0x8000_0000_0000_0000 as nat) < 0x1_0000_0000)
            by (nonlinear_arith)
            requires
                sqrt_floor(0x8000_0000_0000_0000 as nat)
                    * sqrt_floor(0x8000_0000_0000_0000 as nat) <= 0x8000_0000_0000_0000,
        ;
        lemma2_to64();
    }
    let mut c: u64 = c0 as u64;
    let mut rem: u64 = x;
    let mut i: u32 = 32;
    let mut w: u64 = 0x8000_0000;
    while i > 0
        invariant
            i <= 32,
            i > 0 ==> w as int == pow2((i - 1) as nat),
            rem < pow2(i as nat),
            acc <= 0x1_0000_0000u64,
            c < 0x1_0000_0000u64,
            acc == 0x1_0000_0000u64 ==> rem == x,
            spec_exp2_frac(x as int) == spec_exp2_step(rem as int, i as nat, acc as int, c as int),
        decreases i,
    {
        proof {
            lemma_pow2_unfold(i as nat);
            assert(acc * c < 0x1_0000_0000u64 * 0x1_0000_0000u64) by (nonlinear_arith)
                requires
                    acc <= 0x1_0000_0000u64,
                    c < 0x1_0000_0000u64,
            ;
            assert(acc * c / 0x1_0000_0000 < 0x1_0000_0000u64) by (nonlinear_arith)
                requires
                    0 <= acc * c,
                    acc * c < 0x1_0000_0000u64 * 0x1_0000_0000u64,
            ;
        }
        let ghost prev_rem: int = rem as int;
        let ghost prev_acc: int = acc as int;
        let ghost prev_c: int = c as int;
        if rem >= w {
            acc = (acc * c) / 0x1_0000_0000;
            rem = rem - w;
        }
        let cw: u128 = (c as u128) * 0x1_0000_0000u128;
        proof {
            assert(cw < 0x1_0000_0000_0000_0000u128) by (nonlinear_arith)
                requires
                    c < 0x1_0000_0000u64,
                    cw == c * 0x1_0000_0000u128,
            ;
            lemma_sqrt_floor_props(cw as nat);
            assert(sqrt_floor(cw as nat) < 0x1_0000_0000) by (nonlinear_arith)
                requires
                    sqrt_floor(cw as nat) * sqrt_floor(cw as nat) <= cw,
                    cw < 0x1_0000_0000_0000_0000u128,
            ;
        }
        c = isqrt(cw) as u64;
        i = i - 1;
        if i > 0 {
            w = w / 2;
            proof {
                lemma_pow2_unfold(i as nat);
            }
        }
        proof {
            assert(spec_exp2_step(prev_rem, (i + 1) as nat, prev_acc, prev_c)
                == spec_exp2_step(rem as int, i as nat, acc as int, c as int));
        }
    }
    proof {
        assert(pow2(0) == 1);
    }
    acc
}

/// The bit scan never grows its accumulator.
pub proof fn lemma_exp2_step_le(rem: int, i: nat, acc: int, c: int)
    requires
        0 <= acc <= 0x1_0000_0000,
        0 <= c < 0x1_0000_0000,
    ensures
        0 <= spec_exp2_step(rem, i, acc, c) <= acc,
    decreases i,
{
    if i > 0 {
        let w = pow2((i - 1) as nat) as int;
        let acc2 = if rem >= w { acc * c / 0x1_0000_0000 } else { acc };
        assert(0 <= acc * c / 0x1_0000_0000 <= acc) by (nonlinear_arith)
            requires
                0 <= acc,
                0 <= c < 0x1_0000_0000,
        ;
        let cw = (c * 0x1_0000_0000) as nat;
        lemma_sqrt_floor_props(cw);
        assert(sqrt_floor(cw) < 0x1_0000_0000) by (nonlinear_arith)
            requires
                sqrt_floor(cw) * sqrt_floor(cw) <= cw,
                cw < 0x1_0000_0000 * 0x1_0000_0000,
        ;
        lemma_exp2_step_le(if rem >= w { rem - w } else { rem }, (i - 1) as nat, acc2,
            sqrt_floor(cw) as int);
    }
}

/// As soon as any bit of the exponent is set, the product drops strictly
/// below one in Q32.
pub proof fn lemma_exp2_step_strict(rem: int, i: nat, acc: int, c: int)
    requires
        0 <= acc <= 0x1_0000_0000,
        0 <= c < 0x1_0000_0000,
        1 <= rem < pow2(i),
    ensures
        spec_exp2_step(rem, i, acc, c) < 0x1_0000_0000,
    decreases i,
{
    lemma2_to64();
    let w = pow2((i - 1) as nat) as int;
    let cw = (c * 0x1_0000_0000) as nat;
    lemma_sqrt_floor_props(cw);
    assert(sqrt_floor(cw) < 0x1_0000_0000) by (nonlinear_arith)
        requires
            sqrt_floor(cw) * sqrt_floor(cw) <= cw,
            cw < 0x1_0000_0000 * 0x1_0000_0000,
    ;
    if rem >= w {
        let acc2 = acc * c / 0x1_0000_0000;
        assert(acc2 <= c) by (nonlinear_arith)
            requires
                0 <= c,
                acc <= 0x1_0000_0000,
                acc2 == acc * c / 0x1_0000_0000,
        ;
        assert(0 <= acc2) by (nonlinear_arith)
            requires
                0 <= c,
                0 <= acc,
                acc2 == acc * c / 0x1_0000_0000,
        ;
        lemma_exp2_step_le(rem - w, (i - 1) as nat, acc2, sqrt_floor(cw) as int);
    } else {
        lemma_pow2_unfold(i);
        lemma_exp2_step_strict(rem, (i - 1) as nat, acc, sqrt_floor(cw) as int);
    }
}

/// Q32 per-minute decay ratio `2^(-1/h)` for a half-life of `h` whole
/// minutes.
pub open spec fn spec_ratio_q32(h: int) -> int {
    if h == 1 {
        0x8000_0000
    } else {
        spec_exp2_frac(0x1_0000_0000int / h)
    }
}

/// Computes `spec_ratio_q32`; the ratio is strictly below one in Q32.
pub fn ratio_q32(h: u32) -> (r: u64)
    requires
        h >= 1,
    ensures
        r == spec_ratio_q32(h as int),
        r < 0x1_0000_0000u64,
{
    if h == 1 {
        0x8000_0000
    } else {
        let x: u64 = 0x1_0000_0000u64 / (h as u64);
        proof {
            assert(x >= 1) by (nonlinear_arith)
                requires
                    2 <= h < 0x1_0000_0000u64,
                    x == 0x1_0000_0000u64 as int / (h as int),
            ;
            assert(x < 0x1_0000_0000u64) by (nonlinear_arith)
                requires
                    2 <= h,
                    x == 0x1_0000_0000u64 as int / (h as int),
            ;
        }
        exp2_frac(x)
    }
}

/// For half-lives that fit a machine word the decay ratio is a proper
/// fraction: at least zero, strictly below one in Q32.
pub proof fn lemma_ratio_q32_bounds(h: int)
    requires
        1 <= h <= 0xFFFF_FFFFu64,
    ensures
        0 <= spec_ratio_q32(h) < 0x1_0000_0000,
{
    if h != 1 {
        let x = 0x1_0000_0000int / h;
        assert(x >= 1) by (nonlinear_arith)
            requires 2 <= h <= 0xFFFF_FFFFu64, x == 0x1_0000_0000int / h;
        assert(x <= 0x8000_0000) by (nonlinear_arith)
            requires 2 <= h, x == 0x1_0000_0000int / h;
        lemma2_to64();
        let c0 = sqrt_floor(0x8000_0000_0000_0000 as nat) as int;
        lemma_sqrt_floor_props(0x8000_0000_0000_0000 as nat);
        assert(c0 < 0x1_0000_0000) by (nonlinear_arith)
            requires c0 * c0 <= 0x8000_0000_0000_0000;
        assert(c0 >= 0);
        lemma_exp2_step_strict(x, 32, 0x1_0000_0000, c0);
        lemma_exp2_step_le(x, 32, 0x1_0000_0000, c0);
    }
}

/// `n` rounds of multiplying by a Q32 ratio, rounding down each time:
/// the Q32 remaining fraction after `n` minutes of decay.
pub open spec fn spec_pow_q32(rho: int, n: nat) -> int
    decreases n,
{
    if n == 0 {
        0x1_0000_0000
    } else {
        spec_pow_q32(rho, (n - 1) as nat) * rho / 0x1_0000_0000
    }
}

/// The decay fraction stays between zero and one.
pub proof fn lemma_pow_q32_bounds(rho: int, n: nat)
    requires
        0 <= rho <= 0x1_0000_0000,
    ensures
        0 <= spec_pow_q32(rho, n) <= 0x1_0000_0000,
    decreases n,
{
    if n > 0 {
        lemma_pow_q32_bounds(rho, (n - 1) as nat);
        let p = spec_pow_q32(rho, (n - 1) as nat);
        assert(0 <= p * rho / 0x1_0000_0000 <= 0x1_0000_0000) by (nonlinear_arith)
            requires
                0 <= p <= 0x1_0000_0000,
                0 <= rho <= 0x1_0000_0000,
        ;
    }
}

/// One more minute of decay strictly shrinks a positive fraction when the
/// ratio is strictly below one.
pub proof fn lemma_pow_q32_step_strict(rho: int, n: nat)
    requires
        0 <= rho < 0x1_0000_0000,
        spec_pow_q32(rho, n) > 0,
    ensures
        spec_pow_q32(rho, n + 1) < spec_pow_q32(rho, n),
{
    let p = spec_pow_q32(rho, n);
    assert(p * rho / 0x1_0000_0000 < p) by (nonlinear_arith)
        requires
            p > 0,
            0 <= rho < 0x1_0000_0000,
    ;
    assert(spec_pow_q32(rho, (n + 1) as nat) == p * rho / 0x1_0000_0000);
}

/// The decay fraction never grows as minutes pass.
pub proof fn lemma_pow_q32_monotone(rho: int, n1: nat, n2: nat)
    requires
        0 <= rho <= 0x1_0000_0000,
        n1 <= n2,
    ensures
        spec_pow_q32(rho, n2) <= spec_pow_q32(rho, n1),
    decreases n2 - n1,
{
    if n1 < n2 {
        lemma_pow_q32_monotone(rho, n1, (n2 - 1) as nat);
        let p = spec_pow_q32(rho, (n2 - 1) as nat);
        lemma_pow_q32_bounds(rho, (n2 - 1) as nat);
        assert(p * rho / 0x1_0000_0000 <= p) by (nonlinear_arith)
            requires
                0 <= p,
                0 <= rho <= 0x1_0000_0000,
        ;
    }
}

/// While the fraction is still positive, it is strictly decreasing.
pub proof fn lemma_pow_q32_strictly_decreasing(rho: int, n1: nat, n2: nat)
    requires
        0 <= rho < 0x1_0000_0000,
        n1 < n2,
        spec_pow_q32(rho, n1) > 0,
    ensures
        spec_pow_q32(rho, n2) < spec_pow_q32(rho, n1),
{
    lemma_pow_q32_step_strict(rho, n1);
    lemma_pow_q32_monotone(rho, (n1 + 1) as nat, n2);
}

/// Once the fraction reaches zero it stays there.
pub proof fn lemma_pow_q32_zero_stays(rho: int, n1: nat, n2: nat)
    requires
        0 <= rho <= 0x1_0000_0000,
        n1 <= n2,
        spec_pow_q32(rho, n1) == 0,
    ensures
        spec_pow_q32(rho, n2) == 0,
{
    lemma_pow_q32_monotone(rho, n1, n2);
    lemma_pow_q32_bounds(rho, n2);
}

/// Computes `spec_pow_q32` by repeated multiplication, stopping early once
/// the fraction has decayed to nothing.
pub fn pow_q32(rho: u64, n: u64) -> (r: u64)
    requires
        rho < 0x1_0000_0000u64,
    ensures
        r == spec_pow_q32(rho as int, n as nat),
        r <= 0x1_0000_0000u64,
{
    let mut acc: u64 = 0x1_0000_0000;
    let mut i: u64 = 0;
    while i < n
        invariant
            i <= n,
            rho < 0x1_0000_0000u64,
            acc == spec_pow_q32(rho as int, i as nat),
            acc <= 0x1_0000_0000u64,
        decreases n - i,
    {
        if acc == 0 {
            proof {
                lemma_pow_q32_zero_stays(rho as int, i as nat, n as nat);
            }
            return 0;
        }
        proof {
            assert(acc * rho < 0x1_0000_0000u64 * 0x1_0000_0000u64) by (nonlinear_arith)
                requires
                    acc <= 0x1_0000_0000u64,
                    rho < 0x1_0000_0000u64,
            ;
            assert(acc * rho / 0x1_0000_0000 <= 0x1_0000_0000u64) by (nonlinear_arith)
                requires
                    0 <= acc * rho,
                    acc * rho < 0x1_0000_0000u64 * 0x1_0000_0000u64,
            ;
        }
        acc = (acc * rho) / 0x1_0000_0000;
        i = i + 1;
    }
    acc
}

/// How many halvings bring `m` under twice one in Q32.
pub open spec fn spec_norm_shift(m: int) -> int
    decreases m,
{
    if m < 0x2_0000_0000 {
        0
    } else {
        1 + spec_norm_shift(m / 2)
    }
}

/// What is left of `m` after those halvings.
pub open spec fn spec_norm_z(m: int) -> int
    decreases m,
{
    if m < 0x2_0000_0000 {
        m
    } else {
        spec_norm_z(m / 2)
    }
}

/// The fractional bits of a Q32 logarithm, top bit first, by repeated
/// squaring of a mantissa `z` in `[2^32, 2^33)`; `i` bits are still owed.
pub open spec fn spec_log2_frac(z: int, i: nat) -> int
    decreases i,
{
    if i == 0 {
        0
    } else {
        let z2 = z * z / 0x1_0000_0000;
        if z2 >= 0x2_0000_0000 {
            pow2((i - 1) as nat) + spec_log2_frac(z2 / 2, (i - 1) as nat)
        } else {
            spec_log2_frac(z2, (i - 1) as nat)
        }
    }
}

/// Q32 logarithm base 2 of `m / 2^32`, for `m >= 2^32`: the integer part
/// counts the normalizing halvings, the fraction comes from the mantissa.
pub open spec fn spec_log2_q32(m: int) -> int {
    spec_norm_shift(m) * 0x1_0000_0000 + spec_log2_frac(spec_norm_z(m), 32)
}

/// The fractional bits stay below one whole bit above their weight.
pub proof fn lemma_log2_frac_bounds(z: int, i: nat)
    ensures
        0 <= spec_log2_frac(z, i) < pow2(i),
    decreases i,
{
    if i == 0 {
        assert(pow2(0) == 1) by {
            lemma2_to64();
        }
    } else {
        let z2 = z * z / 0x1_0000_0000;
        lemma_log2_frac_bounds(z2 / 2, (i - 1) as nat);
        lemma_log2_frac_bounds(z2, (i - 1) as nat);
        lemma_pow2_unfold(i);
    }
}

/// Computes the Q32 logarithm base 2 of `m / 2^32`.
pub fn log2_q32(m: u128) -> (r: u64)
    requires
        m >= 0x1_0000_0000u128,
    ensures
        r == spec_log2_q32(m as int),
        r < 0x62_0000_0000u64,
        m >= 0x2_0000_0000u128 ==> r >= 0x1_0000_0000u64,
{
    let mut shift: u32 = 0;
    let mut z: u128 = m;
    proof {
        lemma2_to64();
        assert(pow2(0) * z == z) by (nonlinear_arith)
            requires pow2(0) == 1;
    }
    while z >= 0x2_0000_0000u128
        invariant
            0x1_0000_0000u128 <= z,
            spec_norm_shift(m as int) == shift + spec_norm_shift(z as int),
            spec_norm_z(m as int) == spec_norm_z(z as int),
            pow2(shift as nat) * z <= m,
            shift <= 96,
        decreases z,
    {
        proof {
            lemma_pow2_unfold((shift + 1) as nat);
            assert(pow2((shift + 1) as nat) * (z / 2) <= pow2(shift as nat) * z)
                by (nonlinear_arith)
                requires
                    pow2((shift + 1) as nat) == 2 * pow2(shift as nat),
                    z >= 2,
                    pow2(shift as nat) >= 0,
            ;
            if shift + 1 > 96 {
                lemma_pow2_strictly_increases(96, (shift + 1) as nat);
                assert(pow2(96) == 0x1_0000_0000_0000_0000_0000_0000) by {
                    lemma2_to64();
                    lemma_pow2_adds_96();
                }
                assert(pow2((shift + 1) as nat) * (z / 2) > 0xFFFF_FFFF_FFFF_FFFF_FFFF_FFFF_FFFF_FFFFu128)
                    by (nonlinear_arith)
                    requires
                        pow2((shift + 1) as nat) >= 0x2_0000_0000_0000_0000_0000_0000,
                        z / 2 >= 0x8000_0000,
                ;
            }
        }
        z = z / 2;
        shift = shift + 1;
    }
    let ghost z0: int = z as int;
    let mut frac: u64 = 0;
    let mut i: u32 = 32;
    proof {
        lemma2_to64();
    }
    while i > 0
        invariant
            i <= 32,
            0x1_0000_0000u128 <= z < 0x2_0000_0000u128,
            frac < pow2((32 - i) as nat),
            spec_log2_frac(z0, 32) == frac * pow2(i as nat) + spec_log2_frac(z as int, i as nat),
        decreases i,
    {
        proof {
            assert(z * z < 0x4_0000_0000_0000_0000u128) by (nonlinear_arith)
                requires z < 0x2_0000_0000u128;
            assert(z * z >= 0x1_0000_0000_0000_0000u128) by (nonlinear_arith)
                requires z >= 0x1_0000_0000u128;
            lemma_pow2_unfold(i as nat);
            lemma_pow2_unfold((33 - i) as nat);
            if i > 1 {
                lemma_pow2_strictly_increases((32 - i) as nat, 31);
            }
            assert(pow2(31) == 0x8000_0000) by {
                lemma2_to64();
            }
        }
        let zz: u128 = (z * z) / 0x1_0000_0000;
        let ghost prev_frac: int = frac as int;
        let ghost prev_z: int = z as int;
        if zz >= 0x2_0000_0000u128 {
            z = zz / 2;
            frac = frac * 2 + 1;
        } else {
            z = zz;
            frac = frac * 2;
        }
        i = i - 1;
        proof {
            assert(spec_log2_frac(prev_z, (i + 1) as nat) == (if prev_z * prev_z
                / 0x1_0000_0000 >= 0x2_0000_0000 {
                pow2(i as nat) + spec_log2_frac(prev_z * prev_z / 0x1_0000_0000 / 2, i as nat)
            } else {
                spec_log2_frac(prev_z * prev_z / 0x1_0000_0000, i as nat)
            }));
            assert((2 * prev_frac + 1) * pow2(i as nat) == prev_frac * (2 * pow2(
                i as nat,
            )) + pow2(i as nat)) by (nonlinear_arith);
            assert((2 * prev_frac) * pow2(i as nat) == prev_frac * (2 * pow2(i as nat)))
                by (nonlinear_arith);
        }
    }
    proof {
        assert(pow2(0) == 1);
        assert(frac * pow2(0) == frac) by (nonlinear_arith)
            requires pow2(0) == 1;
        lemma_log2_frac_bounds(z0, 32);
        if m >= 0x2_0000_0000u128 {
            lemma_norm_shift_nonneg(m as int / 2);
            assert(spec_norm_shift(m as int) >= 1);
        }
        assert(shift * 0x1_0000_0000 <= 96 * 0x1_0000_0000) by (nonlinear_arith)
            requires shift <= 96;
    }
    (shift as u64) * 0x1_0000_0000 + frac
}

/// `pow2(96)` as a product of `pow2(48)` with itself.
proof fn lemma_pow2_adds_96()
    ensures
        pow2(96) == 0x1_0000_0000_0000_0000_0000_0000,
{
    lemma2_to64();
    vstd::arithmetic::power2::lemma2_to64_rest();
    vstd::arithmetic::power2::lemma_pow2_adds(48, 48);
    assert(0x1_0000_0000_0000 * 0x1_0000_0000_0000 == 0x1_0000_0000_0000_0000_0000_0000int)
        by (nonlinear_arith);
}

/// The normalizing shift count is never negative.
proof fn lemma_norm_shift_nonneg(m: int)
    ensures
        spec_norm_shift(m) >= 0,
    decreases m,
{
    if m >= 0x2_0000_0000 {
        lemma_norm_shift_nonneg(m / 2);
    }
}

/// `q` halvings of `v`, rounding down each time.
pub open spec fn spec_halve_n(v: int, q: nat) -> int
    decreases q,
{
    if q == 0 {
        v
    } else {
        spec_halve_n(v / 2, (q - 1) as nat)
    }
}

/// Halving never grows a non-negative value.
pub proof fn lemma_halve_n_le(v: int, q: nat)
    requires
        v >= 0,
    ensures
        0 <= spec_halve_n(v, q) <= v,
    decreases q,
{
    if q > 0 {
        lemma_halve_n_le(v / 2, (q - 1) as nat);
    }
}

/// Computes `spec_halve_n`.
pub fn halve_n(v: u64, q: u64) -> (r: u64)
    ensures
        r == spec_halve_n(v as int, q as nat),
        r <= v,
{
    let mut acc: u64 = v;
    let mut j: u64 = 0;
    while j < q
        invariant
            j <= q,
            acc <= v,
            spec_halve_n(v as int, q as nat) == spec_halve_n(acc as int, (q - j) as nat),
        decreases q - j,
    {
        acc = acc / 2;
        j = j + 1;
    }
    acc
}

} // verus!
