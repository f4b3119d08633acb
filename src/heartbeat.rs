//! Arithmetic of the adaptive failure detector: running sums of the
//! round-trip window and the `mean + k * stddev` deadline.
use vstd::prelude::*;

verus! {

/// Number of round-trip samples kept per peer.
pub const HEARTBEAT_WINDOW: usize = 16;

/// Tuning of the adaptive failure detector.
#[derive(Debug, Clone, Copy, PartialEq, Eq, Structural)]
pub struct DetectorConfig {
    /// Multiplier `k` of the standard deviation in `mean + k * stddev`.
    pub sensitivity: u32,
    /// Lower bound of every deadline, in milliseconds.
    pub min_timeout: u64,
    /// Deadline used until the sample window has filled once, in milliseconds.
    pub initial_timeout: u64,
}

pub open spec fn seq_sum(s: Seq<u32>) -> int
    decreases s.len(),
{
    if s.len() == 0 {
        0
    } else {
        seq_sum(s.drop_last()) + s.last()
    }
}

pub open spec fn seq_sq_sum(s: Seq<u32>) -> int
    decreases s.len(),
{
    if s.len() == 0 {
        0
    } else {
        seq_sq_sum(s.drop_last()) + s.last() * s.last()
    }
}

pub proof fn lemma_sums_update(s: Seq<u32>, i: int, v: u32)
    requires
        0 <= i < s.len(),
    ensures
        seq_sum(s.update(i, v)) == seq_sum(s) - s[i] + v,
        seq_sq_sum(s.update(i, v)) == seq_sq_sum(s) - s[i] * s[i] + v * v,
    decreases s.len(),
{
    let t = s.update(i, v);
    if i == s.len() - 1 {
        assert(t.drop_last() =~= s.drop_last());
    } else {
        assert(t.drop_last() =~= s.drop_last().update(i, v));
        lemma_sums_update(s.drop_last(), i, v);
    }
}

pub proof fn lemma_sums_bounded(s: Seq<u32>)
    ensures
        0 <= seq_sum(s) <= s.len() * 0xffff_ffff,
        0 <= seq_sq_sum(s) <= s.len() * (0xffff_ffff * 0xffff_ffff),
    decreases s.len(),
{
    if s.len() > 0 {
        lemma_sums_bounded(s.drop_last());
        let x = s.last();
        assert(0 <= x * x <= 0xffff_ffff * 0xffff_ffff) by (nonlinear_arith)
            requires
                0 <= x <= 0xffff_ffff,
        ;
        assert(s.len() * 0xffff_ffff == (s.len() - 1) * 0xffff_ffff + 0xffff_ffff)
            by (nonlinear_arith);
        assert(s.len() * (0xffff_ffff * 0xffff_ffff) == (s.len() - 1) * (0xffff_ffff
            * 0xffff_ffff) + 0xffff_ffff * 0xffff_ffff) by (nonlinear_arith);
    }
}

pub proof fn lemma_zeros_sum(n: nat)
    ensures
        seq_sum(Seq::new(n, |i: int| 0u32)) == 0,
        seq_sq_sum(Seq::new(n, |i: int| 0u32)) == 0,
    decreases n,
{
    if n > 0 {
        let z = Seq::new(n, |i: int| 0u32);
        assert(z.drop_last() =~= Seq::new((n - 1) as nat, |i: int| 0u32));
        lemma_zeros_sum((n - 1) as nat);
        assert(z.last() == 0);
        assert(z.last() * z.last() == 0);
    }
}

/// Integer square root: the largest `r` with `r * r <= v`.
pub open spec fn isqrt(v: nat) -> nat
    decreases v,
{
    if v == 0 {
        0
    } else {
        let r = isqrt((v - 1) as nat);
        if (r + 1) * (r + 1) <= v {
            r + 1
        } else {
            r
        }
    }
}

proof fn lemma_div_bound(x: int, n: int, c: int)
    requires
        0 <= x <= n * c,
        n > 0,
    ensures
        x / n <= c,
{
    assert(x / n <= c) by (nonlinear_arith)
        requires
            0 <= x <= n * c,
            n > 0,
    ;
}

proof fn lemma_square_monotonic(a: nat, b: nat)
    requires
        a <= b,
    ensures
        a * a <= b * b,
{
    assert(a * a <= b * b) by (nonlinear_arith)
        requires
            a <= b,
    ;
}

pub proof fn lemma_isqrt_bounds(v: nat)
    ensures
        isqrt(v) * isqrt(v) <= v,
        v < (isqrt(v) + 1) * (isqrt(v) + 1),
    decreases v,
{
    if v > 0 {
        lemma_isqrt_bounds((v - 1) as nat);
        let r = isqrt((v - 1) as nat);
        if (r + 1) * (r + 1) <= v {
            // v - 1 < (r + 1)^2 <= v, so (r + 1)^2 == v < (r + 2)^2.
            assert(isqrt(v) == r + 1);
            assert(v < (r + 2) * (r + 2)) by (nonlinear_arith)
                requires
                    v - 1 < (r + 1) * (r + 1),
                    (r + 1) * (r + 1) <= v,
            ;
            assert(isqrt(v) * isqrt(v) <= v);
            assert(v < (isqrt(v) + 1) * (isqrt(v) + 1));
        } else {
            assert(isqrt(v) == r);
            assert(isqrt(v) * isqrt(v) <= v);
            assert(v < (isqrt(v) + 1) * (isqrt(v) + 1));
        }
    } else {
        assert(isqrt(v) == 0);
        assert(0nat * 0nat == 0 && 1nat * 1nat == 1) by (nonlinear_arith);
    }
}

pub proof fn lemma_isqrt_unique(v: nat, r: nat)
    requires
        r * r <= v,
        v < (r + 1) * (r + 1),
    ensures
        isqrt(v) == r,
{
    lemma_isqrt_bounds(v);
    let s = isqrt(v);
    if s < r {
        lemma_square_monotonic(s + 1, r);
    } else if r < s {
        lemma_square_monotonic(r + 1, s);
    }
}

/// Floor of the square root of `v`, for `v < 2^66`.
pub fn integer_sqrt(v: u128) -> (r: u128)
    requires
        v < 0x4_0000_0000_0000_0000,
    ensures
        r == isqrt(v as nat),
{
    let mut lo: u128 = 0;
    let mut hi: u128 = 0x2_0000_0000;
    assert(hi * hi == 0x4_0000_0000_0000_0000);
    while lo + 1 < hi
        invariant
            lo < hi <= 0x2_0000_0000,
            lo * lo <= v,
            v < hi * hi,
        decreases hi - lo,
    {
        let mid: u128 = lo + (hi - lo) / 2;
        assert(mid * mid <= 0x2_0000_0000 * 0x2_0000_0000) by (nonlinear_arith)
            requires
                mid <= 0x2_0000_0000,
        ;
        if mid * mid <= v {
            lo = mid;
        } else {
            hi = mid;
        }
    }
    proof {
        lemma_isqrt_unique(v as nat, lo as nat);
    }
    lo
}

/// Adaptive deadline of a full window of `n` samples: `mean + k * stddev`,
/// with the mean rounded down and the standard deviation the integer square
/// root of the population variance `(n * sum(x^2) - sum(x)^2) / n^2`; floored
/// at the configured minimum and capped at `u64::MAX`.
pub open spec fn spec_adaptive_deadline(window: Seq<u32>, cfg: DetectorConfig) -> int {
    let n = window.len() as int;
    let sum = seq_sum(window);
    let mean = sum / n;
    let spread = n * seq_sq_sum(window) - sum * sum;
    let variance = if spread > 0 {
        spread / (n * n)
    } else {
        0
    };
    let d = mean + cfg.sensitivity * isqrt(variance as nat);
    let floored = if d < cfg.min_timeout {
        cfg.min_timeout as int
    } else {
        d
    };
    if floored > u64::MAX {
        u64::MAX as int
    } else {
        floored
    }
}

/// Computes the deadline from a full window, given its running sums.
pub fn adaptive_deadline(window: &Vec<u32>, sum: u64, sq_sum: u128, cfg: DetectorConfig) -> (r: u64)
    requires
        window@.len() == HEARTBEAT_WINDOW,
        sum == seq_sum(window@),
        sq_sum == seq_sq_sum(window@),
    ensures
        r == spec_adaptive_deadline(window@, cfg),
{
    proof {
        lemma_sums_bounded(window@);
        lemma_div_bound(sum as int, 16, 0xffff_ffff);
    }
    let n: u128 = HEARTBEAT_WINDOW as u128;
    assert(n == 16);
    assert(sq_sum <= 16 * (0xffff_ffff * 0xffff_ffff));
    let total: u128 = sum as u128;
    let mean: u128 = total / n;
    assert(mean <= 0xffff_ffff);
    assert(total * total <= (16 * 0xffff_ffff) * (16 * 0xffff_ffff)) by (nonlinear_arith)
        requires
            total <= 16 * 0xffff_ffff,
    ;
    let scaled: u128 = n * sq_sum;
    let squared: u128 = total * total;
    let variance: u128 = if scaled > squared {
        (scaled - squared) / (n * n)
    } else {
        0
    };
    proof {
        if scaled > squared {
            lemma_div_bound((scaled - squared) as int, 256, (0xffff_ffff * 0xffff_ffff) as int);
        }
    }
    assert(variance <= 0xffff_ffff * 0xffff_ffff);
    let stddev = integer_sqrt(variance);
    proof {
        lemma_isqrt_bounds(variance as nat);
        if stddev >= 0x1_0000_0000 {
            lemma_square_monotonic(0x1_0000_0000, stddev as nat);
        }
    }
    assert(stddev < 0x1_0000_0000);
    let k: u128 = cfg.sensitivity as u128;
    assert(k * stddev <= 0xffff_ffff * 0xffff_ffff) by (nonlinear_arith)
        requires
            k <= 0xffff_ffff,
            stddev <= 0xffff_ffff,
    ;
    let d: u128 = mean + k * stddev;
    let floored: u128 = if d < cfg.min_timeout as u128 {
        cfg.min_timeout as u128
    } else {
        d
    };
    if floored > u64::MAX as u128 {
        u64::MAX
    } else {
        floored as u64
    }
}

} // verus!
