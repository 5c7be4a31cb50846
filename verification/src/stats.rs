//! Statistics summarizer: exact integer summary of a sample series.
//!
//! A series is summarized by its length, extrema, sum and the numerator
//! of its sample variance, all as exact integers. The arithmetic mean is
//! `sum / count` and the sample (N−1 denominator) variance is
//! `var_numer / (count * (count - 1))`; callers that display floating
//! point values perform those divisions themselves. For a single-sample
//! series the variance numerator is exactly zero, so the reported
//! standard deviation of such a series is zero.

use vstd::prelude::*;

verus! {

/// Sum of the series, as a mathematical integer.
pub open spec fn sum_of(s: Seq<i64>) -> int
    decreases s.len(),
{
    if s.len() == 0 {
        0
    } else {
        sum_of(s.drop_last()) + s.last()
    }
}

/// Sum of the squares of the series, as a mathematical integer.
pub open spec fn sumsq_of(s: Seq<i64>) -> int
    decreases s.len(),
{
    if s.len() == 0 {
        0
    } else {
        sumsq_of(s.drop_last()) + (s.last() as int) * (s.last() as int)
    }
}

/// Least element of the series (zero for an empty series).
pub open spec fn min_of(s: Seq<i64>) -> int
    decreases s.len(),
{
    if s.len() == 0 {
        0
    } else if s.len() == 1 {
        s[0] as int
    } else {
        let m = min_of(s.drop_last());
        if (s.last() as int) < m {
            s.last() as int
        } else {
            m
        }
    }
}

/// Greatest element of the series (zero for an empty series).
pub open spec fn max_of(s: Seq<i64>) -> int
    decreases s.len(),
{
    if s.len() == 0 {
        0
    } else if s.len() == 1 {
        s[0] as int
    } else {
        let m = max_of(s.drop_last());
        if (s.last() as int) > m {
            s.last() as int
        } else {
            m
        }
    }
}

/// Numerator of the sample variance over a common denominator of
/// `len * (len - 1)`: `len * sumsq - sum^2`.
pub open spec fn var_num_of(s: Seq<i64>) -> int {
    s.len() * sumsq_of(s) - sum_of(s) * sum_of(s)
}

/// The mean of a non-empty series lies between its extrema:
/// `len * min <= sum <= len * max` (and `min <= max`).
pub proof fn lemma_mean_bounds(s: Seq<i64>)
    requires
        s.len() > 0,
    ensures
        s.len() * min_of(s) <= sum_of(s),
        sum_of(s) <= s.len() * max_of(s),
        min_of(s) <= max_of(s),
    decreases s.len(),
{
    if s.len() == 1 {
        assert(sum_of(s.drop_last()) == 0);
    } else {
        let d = s.drop_last();
        let x = s.last() as int;
        let nd = d.len() as int;
        let n = s.len() as int;
        lemma_mean_bounds(d);
        assert(nd * min_of(s) <= nd * min_of(d)) by (nonlinear_arith)
            requires
                min_of(s) <= min_of(d),
                nd >= 0,
        ;
        assert(nd * max_of(s) >= nd * max_of(d)) by (nonlinear_arith)
            requires
                max_of(s) >= max_of(d),
                nd >= 0,
        ;
        assert(n * min_of(s) == nd * min_of(s) + min_of(s)) by (nonlinear_arith)
            requires
                n == nd + 1,
        ;
        assert(n * max_of(s) == nd * max_of(s) + max_of(s)) by (nonlinear_arith)
            requires
                n == nd + 1,
        ;
    }
}

/// For any series `d` and value `x`:
/// `sumsq(d) + len(d) * x^2 - 2 * sum(d) * x >= 0`
/// (it is the sum of the squares `(d[i] - x)^2`).
proof fn lemma_centered_squares(d: Seq<i64>, x: int)
    ensures
        sumsq_of(d) + d.len() * x * x - 2 * sum_of(d) * x >= 0,
    decreases d.len(),
{
    if d.len() == 0 {
    } else {
        let e = d.drop_last();
        let y = d.last() as int;
        lemma_centered_squares(e, x);
        assert(y * y + x * x - 2 * y * x >= 0) by (nonlinear_arith);
        assert(d.len() * x * x == e.len() * x * x + x * x) by (nonlinear_arith)
            requires
                d.len() == e.len() + 1,
        ;
        assert(2 * sum_of(d) * x == 2 * sum_of(e) * x + 2 * y * x) by (nonlinear_arith)
            requires
                sum_of(d) == sum_of(e) + y,
        ;
    }
}

/// The sample variance numerator is never negative:
/// `len * sumsq - sum^2 >= 0`.
pub proof fn lemma_variance_nonneg(s: Seq<i64>)
    ensures
        var_num_of(s) >= 0,
    decreases s.len(),
{
    if s.len() == 0 {
    } else {
        let d = s.drop_last();
        let x = s.last() as int;
        let n = s.len() as int;
        let nd = d.len() as int;
        let q = sumsq_of(d);
        let sm = sum_of(d);
        lemma_variance_nonneg(d);
        lemma_centered_squares(d, x);
        assert(n * (q + x * x) - (sm + x) * (sm + x) == (nd * q - sm * sm) + (q + nd * x
            * x - 2 * sm * x)) by (nonlinear_arith)
            requires
                n == nd + 1,
        ;
    }
}

/// Exact integer summary of a non-empty series.
pub struct SummaryStats {
    /// Number of samples.
    pub count: usize,
    /// Least sample.
    pub min: i64,
    /// Greatest sample.
    pub max: i64,
    /// Sum of the samples; the mean is `sum / count`.
    pub sum: i128,
    /// Numerator of the sample variance over the denominator
    /// `count * (count - 1)`; `None` when the exact numerator exceeds
    /// the 128-bit range. Zero when `count` is one.
    pub var_numer: Option<i128>,
}

/// True if `st` is the exact summary of `s`.
pub open spec fn stats_match(st: SummaryStats, s: Seq<i64>) -> bool {
    st.count == s.len() && st.min == min_of(s) && st.max == max_of(s) && st.sum == sum_of(
        s,
    ) && match st.var_numer {
        Some(v) => s.len() * sumsq_of(s) <= i128::MAX && v == var_num_of(s),
        None => s.len() * sumsq_of(s) > i128::MAX,
    }
}

/// Computes the exact summary statistics of a non-empty series: count,
/// extrema, sum, and the sample-variance numerator.
pub fn summarize(series: &Vec<i64>) -> (r: SummaryStats)
    requires
        series@.len() > 0,
    ensures
        stats_match(r, series@),
        series@.len() * min_of(series@) <= sum_of(series@) <= series@.len() * max_of(
            series@,
        ),
        r.var_numer matches Some(v) ==> v >= 0,
{
    let n = series.len();
    let x0 = series[0];
    let mut mn: i64 = x0;
    let mut mx: i64 = x0;
    let mut sm: i128 = x0 as i128;
    proof {
        assert((x0 as int) * (x0 as int) <= 0x40000000000000000000000000000000)
            by (nonlinear_arith)
            requires
                i64::MIN <= x0 <= i64::MAX,
        ;
        assert((x0 as int) * (x0 as int) >= 0) by (nonlinear_arith);
    }
    let mut q: Option<i128> = Some((x0 as i128) * (x0 as i128));
    let mut i: usize = 1;
    proof {
        let t1 = series@.take(1);
        assert(t1 =~= seq![series@[0]]);
        assert(t1.drop_last() =~= Seq::<i64>::empty());
        assert(sum_of(Seq::<i64>::empty()) == 0);
        assert(sumsq_of(Seq::<i64>::empty()) == 0);
        assert(t1.last() == series@[0]);
        assert(sum_of(t1) == series@[0]);
        assert(sumsq_of(t1) == (series@[0] as int) * (series@[0] as int));
        assert(min_of(t1) == series@[0]);
        assert(max_of(t1) == series@[0]);
    }
    while i < n
        invariant
            1 <= i <= n,
            n == series@.len(),
            mn == min_of(series@.take(i as int)),
            mx == max_of(series@.take(i as int)),
            sm == sum_of(series@.take(i as int)),
            (i as int) * (i64::MIN as int) <= sm <= (i as int) * (i64::MAX as int),
            match q {
                Some(v) => v == sumsq_of(series@.take(i as int)) && v >= 0,
                None => sumsq_of(series@.take(i as int)) > i128::MAX,
            },
        decreases n - i,
    {
        let x = series[i];
        proof {
            assert(series@.take(i + 1).drop_last() =~= series@.take(i as int));
            assert(series@.take(i + 1).last() == series@[i as int]);
            assert((x as int) * (x as int) <= 0x40000000000000000000000000000000)
                by (nonlinear_arith)
                requires
                    i64::MIN <= x <= i64::MAX,
            ;
            assert((x as int) * (x as int) >= 0) by (nonlinear_arith);
        }
        if x < mn {
            mn = x;
        }
        if x > mx {
            mx = x;
        }
        sm = sm + (x as i128);
        let xsq: i128 = (x as i128) * (x as i128);
        q = match q {
            Some(v) => v.checked_add(xsq),
            None => None,
        };
        i = i + 1;
    }
    proof {
        assert(series@.take(n as int) =~= series@);
        lemma_mean_bounds(series@);
        lemma_variance_nonneg(series@);
    }
    let var_numer: Option<i128> = match q {
        Some(qv) => {
            match (n as i128).checked_mul(qv) {
                Some(nq) => {
                    proof {
                        assert(sm * sm >= 0) by (nonlinear_arith);
                    }
                    Some(nq - sm * sm)
                },
                None => {
                    proof {
                        assert((n as int) * qv > i128::MAX) by (nonlinear_arith)
                            requires
                                (n as int) * (qv as int) > i128::MAX || (n as int) * (
                                qv as int) < i128::MIN,
                                n >= 1,
                                qv >= 0,
                        ;
                    }
                    None
                },
            }
        },
        None => {
            proof {
                let ssq = sumsq_of(series@);
                assert((n as int) * ssq >= ssq) by (nonlinear_arith)
                    requires
                        n >= 1,
                        ssq > i128::MAX,
                ;
            }
            None
        },
    };
    SummaryStats { count: n, min: mn, max: mx, sum: sm, var_numer }
}

} // verus!
