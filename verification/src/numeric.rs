//! Exact integer statistics over duration samples.
//!
//! Duration samples are milliseconds as signed 64-bit values.  The mean
//! and the sample standard deviation are reported in thousandths of a
//! millisecond (a fixed-point value with three decimal places), truncated
//! toward zero; the caller divides by 1000 for display.  Every
//! computation is exact: a result is absent only when there are too few
//! samples or when the exact intermediate value exceeds the 128-bit
//! range, and the contracts say precisely which.

use vstd::prelude::*;

verus! {

/// The sum of a sample sequence.
pub open spec fn sum_of(s: Seq<i64>) -> int
    decreases s.len(),
{
    if s.len() == 0 {
        0
    } else {
        sum_of(s.drop_last()) + s.last()
    }
}

/// The numerator of the Bessel-corrected sample variance, cleared of
/// divisions: with n samples and total S, the sum of (n * x - S)^2 over
/// the samples.  The variance itself is this value over n^2 * (n - 1).
pub open spec fn var_num_of(s: Seq<i64>) -> int {
    var_num_terms(s, s.len() as int, sum_of(s))
}

/// The sum of (n * x - total)^2 over the samples x.
pub open spec fn var_num_terms(s: Seq<i64>, n: int, total: int) -> int
    decreases s.len(),
{
    if s.len() == 0 {
        0
    } else {
        var_num_terms(s.drop_last(), n, total) + (n * s.last() - total) * (n * s.last() - total)
    }
}

/// The mean in thousandths of a millisecond, truncated toward zero.
pub open spec fn avg_milli_spec(s: Seq<i64>) -> int
    recommends
        s.len() > 0,
{
    if sum_of(s) >= 0 {
        1000 * sum_of(s) / s.len() as int
    } else {
        -(1000 * -sum_of(s) / s.len() as int)
    }
}

proof fn lemma_sum_bound(s: Seq<i64>)
    ensures
        -(s.len() as int) * 0x8000_0000_0000_0000 <= sum_of(s) <= (s.len() as int)
            * 0x8000_0000_0000_0000,
    decreases s.len(),
{
    if s.len() > 0 {
        lemma_sum_bound(s.drop_last());
    }
}

/// The exact sum of the samples; it always fits in 128 bits.
pub fn sum_samples(samples: &Vec<i64>) -> (r: i128)
    ensures
        r as int == sum_of(samples@),
{
    let n = samples.len();
    let mut acc: i128 = 0;
    let mut i: usize = 0;
    while i < n
        invariant
            n == samples@.len(),
            i <= n,
            acc as int == sum_of(samples@.take(i as int)),
        decreases n - i,
    {
        proof {
            lemma_sum_bound(samples@.take(i as int));
            assert(samples@.take(i as int).len() == i);
            assert(samples@.take(i + 1).drop_last() =~= samples@.take(i as int));
            assert(samples@.take(i + 1).last() == samples@[i as int]);
        }
        acc = acc + samples[i] as i128;
        i = i + 1;
    }
    proof {
        assert(samples@.take(n as int) =~= samples@);
    }
    acc
}

/// The mean in thousandths of a millisecond, `None` exactly when there
/// are no samples or a thousandfold of the sum leaves the 128-bit range.
pub fn avg_ms_milli(samples: &Vec<i64>) -> (r: Option<i128>)
    ensures
        r matches Some(v) ==> samples@.len() > 0 && v as int == avg_milli_spec(samples@),
        r is None <==> (samples@.len() == 0 || 1000 * abs_int(sum_of(samples@)) > u128::MAX as int),
{
    let n = samples.len();
    if n == 0 {
        return None;
    }
    let total = sum_samples(samples);
    let negative = total < 0;
    proof {
        lemma_sum_bound(samples@);
    }
    let magnitude: u128 = if negative {
        (-total) as u128
    } else {
        total as u128
    };
    let scaled = match magnitude.checked_mul(1000) {
        Some(s) => s,
        None => {
            return None;
        },
    };
    let q: u128 = scaled / (n as u128);
    proof {
        lemma_div_within_i128(scaled as int, n as int, magnitude as int);
    }
    if negative {
        Some(-(q as i128))
    } else {
        Some(q as i128)
    }
}

/// The magnitude of an integer.
pub open spec fn abs_int(x: int) -> int {
    if x >= 0 {
        x
    } else {
        -x
    }
}

proof fn lemma_div_within_i128(scaled: int, n: int, magnitude: int)
    requires
        n > 0,
        scaled == 1000 * magnitude,
        0 <= magnitude <= n * 0x8000_0000_0000_0000,
    ensures
        scaled / n <= 1000 * 0x8000_0000_0000_0000,
        scaled / n >= 0,
{
    assert(scaled <= n * (1000 * 0x8000_0000_0000_0000)) by (nonlinear_arith)
        requires
            scaled == 1000 * magnitude,
            magnitude <= n * 0x8000_0000_0000_0000,
            n > 0,
    ;
    assert(scaled / n <= 1000 * 0x8000_0000_0000_0000) by (nonlinear_arith)
        requires
            n > 0,
            scaled <= n * (1000 * 0x8000_0000_0000_0000),
    ;
    assert(scaled / n >= 0) by (nonlinear_arith)
        requires
            n > 0,
            scaled >= 0,
    ;
}

/// Floor of the square root: the unique r with r^2 <= x < (r+1)^2.
pub fn isqrt_u128(x: u128) -> (r: u128)
    ensures
        r * r <= x,
        x < (r + 1) * (r + 1),
{
    if x == 0 {
        return 0;
    }
    let mut lo: u128 = 0;
    let mut hi: u128 = 0x1_0000_0000_0000_0000;
    proof {
        assert(hi * hi > x) by (nonlinear_arith)
            requires
                hi == 0x1_0000_0000_0000_0000,
                x <= u128::MAX,
        ;
    }
    while lo + 1 < hi
        invariant
            lo < hi,
            hi <= 0x1_0000_0000_0000_0000,
            lo * lo <= x,
            x < hi * hi,
        decreases hi - lo,
    {
        let mid = lo + (hi - lo) / 2;
        proof {
            assert(mid < hi);
            assert(mid * mid <= u128::MAX) by (nonlinear_arith)
                requires
                    mid < 0x1_0000_0000_0000_0000,
            ;
        }
        if mid * mid <= x {
            lo = mid;
        } else {
            hi = mid;
        }
    }
    lo
}

/// The scaled variance numerator, computed exactly or reported as out
/// of range: `None` exactly when the exact value exceeds `i128::MAX`.
fn var_num_i128(samples: &Vec<i64>, total: i128) -> (r: Option<i128>)
    requires
        total as int == sum_of(samples@),
        abs_int(total as int) <= samples@.len() as int * 0x8000_0000_0000_0000,
    ensures
        r matches Some(v) ==> v as int == var_num_of(samples@) && v >= 0,
        r is None <==> var_num_of(samples@) > i128::MAX as int,
{
    let n = samples.len();
    let ghost gn = samples@.len() as int;
    let ghost gtotal = total as int;
    let mut acc: i128 = 0;
    let mut i: usize = 0;
    while i < n
        invariant
            n == samples@.len(),
            gn == n as int,
            gtotal == total as int,
            gtotal == sum_of(samples@),
            abs_int(gtotal) <= gn * 0x8000_0000_0000_0000,
            i <= n,
            acc as int == var_num_terms(samples@.take(i as int), gn, gtotal),
            acc >= 0,
        decreases n - i,
    {
        let x = samples[i];
        proof {
            assert(samples@.take(i + 1).drop_last() =~= samples@.take(i as int));
            assert(samples@.take(i + 1).last() == samples@[i as int]);
            lemma_nx_in_range(gn, x as int, gtotal);
        }
        let nx: i128 = (n as i128) * (x as i128);
        let ghost d = gn * (x as int) - gtotal;
        let dev = match nx.checked_sub(total) {
            Some(difference) => difference,
            None => {
                proof {
                    assert(d > i128::MAX as int || d < i128::MIN as int);
                    assert(d * d > i128::MAX as int) by (nonlinear_arith)
                        requires
                            d > i128::MAX as int || d < i128::MIN as int,
                    ;
                    lemma_term_split(samples@, i as int, gn, gtotal);
                    lemma_var_terms_nonneg(samples@.take(i as int), gn, gtotal);
                }
                return None;
            },
        };
        let term = match dev.checked_mul(dev) {
            Some(t) => t,
            None => {
                proof {
                    assert(d * d >= 0) by (nonlinear_arith);
                    assert(d * d > i128::MAX as int);
                    lemma_term_split(samples@, i as int, gn, gtotal);
                    lemma_var_terms_nonneg(samples@.take(i as int), gn, gtotal);
                }
                return None;
            },
        };
        proof {
            assert(term >= 0) by (nonlinear_arith)
                requires
                    term as int == dev as int * dev as int,
            ;
        }
        let next = match acc.checked_add(term) {
            Some(v) => v,
            None => {
                proof {
                    assert(var_num_terms(samples@.take(i + 1), gn, gtotal) == acc as int
                        + term as int);
                    assert(acc as int + term as int > i128::MAX as int);
                    lemma_var_terms_grow(samples@, i + 1, gn, gtotal);
                }
                return None;
            },
        };
        acc = next;
        proof {
            lemma_var_terms_grow(samples@, i + 1, gn, gtotal);
        }
        i = i + 1;
    }
    proof {
        assert(samples@.take(n as int) =~= samples@);
    }
    Some(acc)
}

proof fn lemma_nx_in_range(n: int, x: int, total: int)
    requires
        n >= 1,
        n <= 0xFFFF_FFFF_FFFF_FFFF,
        -0x8000_0000_0000_0000 <= x <= 0x7FFF_FFFF_FFFF_FFFF,
    ensures
        abs_int(n * x) <= 0xFFFF_FFFF_FFFF_FFFF * 0x8000_0000_0000_0000,
{
    assert(abs_int(n * x) <= 0xFFFF_FFFF_FFFF_FFFF * 0x8000_0000_0000_0000) by (nonlinear_arith)
        requires
            1 <= n <= 0xFFFF_FFFF_FFFF_FFFF,
            -0x8000_0000_0000_0000 <= x <= 0x7FFF_FFFF_FFFF_FFFF,
    ;
}

/// Each term of the variance numerator is at most the whole.
proof fn lemma_var_terms_grow(s: Seq<i64>, i: int, n: int, total: int)
    requires
        0 <= i <= s.len(),
    ensures
        var_num_terms(s.take(i), n, total) <= var_num_terms(s, n, total),
        var_num_terms(s.take(i), n, total) >= 0,
    decreases s.len() - i, s.len(),
{
    lemma_var_terms_nonneg(s.take(i), n, total);
    if i < s.len() {
        lemma_var_terms_grow(s, i + 1, n, total);
        let t = s.take(i + 1);
        assert(t.drop_last() =~= s.take(i));
        let d = n * t.last() - total;
        assert(d * d >= 0) by (nonlinear_arith);
        assert(var_num_terms(s.take(i), n, total) <= var_num_terms(t, n, total));
    } else {
        assert(s.take(i) =~= s);
    }
}

proof fn lemma_var_terms_nonneg(s: Seq<i64>, n: int, total: int)
    ensures
        var_num_terms(s, n, total) >= 0,
    decreases s.len(),
{
    if s.len() > 0 {
        lemma_var_terms_nonneg(s.drop_last(), n, total);
        let d = n * s.last() - total;
        assert(d * d >= 0) by (nonlinear_arith);
    }
}

/// One term (plus the terms before it) is a lower bound on the whole
/// variance numerator.
proof fn lemma_term_split(s: Seq<i64>, i: int, n: int, total: int)
    requires
        0 <= i < s.len(),
    ensures
        var_num_terms(s, n, total) >= (n * s[i] - total) * (n * s[i] - total) + var_num_terms(
            s.take(i),
            n,
            total,
        ),
{
    assert(s.take(s.len() as int) =~= s);
    lemma_term_split_inner(s, i, s.len() as int, n, total);
}

proof fn lemma_term_split_inner(s: Seq<i64>, i: int, j: int, n: int, total: int)
    requires
        0 <= i < j <= s.len(),
    ensures
        var_num_terms(s.take(j), n, total) >= (n * s[i] - total) * (n * s[i] - total)
            + var_num_terms(s.take(i), n, total),
    decreases j - i,
{
    let t = s.take(j);
    if j == i + 1 {
        assert(t.drop_last() =~= s.take(i));
        assert(t.last() == s[i]);
        lemma_var_terms_nonneg(s.take(i), n, total);
    } else {
        lemma_term_split_inner(s, i, j - 1, n, total);
        assert(t.drop_last() =~= s.take(j - 1));
        let d = n * t.last() - total;
        assert(d * d >= 0) by (nonlinear_arith);
    }
}

/// The Bessel-corrected sample standard deviation in thousandths of a
/// millisecond, truncated: the floor of the square root of
/// 10^6 * var_num / (n^2 * (n-1)).  `None` exactly when there are fewer
/// than two samples or an exact intermediate leaves the 128-bit range.
pub fn stddev_ms_milli(samples: &Vec<i64>) -> (r: Option<u128>)
    ensures
        r matches Some(v) ==> {
            let scaled = 1000000 * var_num_of(samples@) / (samples@.len() * samples@.len() * (
            samples@.len() - 1));
            &&& samples@.len() >= 2
            &&& v * v <= scaled
            &&& scaled < (v + 1) * (v + 1)
        },
        r is None <==> (samples@.len() < 2 || var_num_of(samples@) > i128::MAX as int || 1000000
            * var_num_of(samples@) > u128::MAX as int || (samples@.len() as int * samples@.len()
            * (samples@.len() - 1)) > u128::MAX as int),
{
    let n = samples.len();
    if n < 2 {
        return None;
    }
    let total = sum_samples(samples);
    proof {
        lemma_sum_bound(samples@);
    }
    let num = match var_num_i128(samples, total) {
        Some(v) => v,
        None => {
            return None;
        },
    };
    let scaled = match (num as u128).checked_mul(1000000) {
        Some(s) => s,
        None => {
            return None;
        },
    };
    let nn = match (n as u128).checked_mul(n as u128) {
        Some(v) => v,
        None => {
            proof {
                assert(false) by (nonlinear_arith)
                    requires
                        n as int * n as int > u128::MAX as int,
                        n <= 0xFFFF_FFFF_FFFF_FFFF,
                ;
            }
            return None;
        },
    };
    let den = match nn.checked_mul((n - 1) as u128) {
        Some(v) => v,
        None => {
            return None;
        },
    };
    proof {
        assert(den > 0) by (nonlinear_arith)
            requires
                den as int == n as int * n as int * (n as int - 1),
                n >= 2,
        ;
    }
    let quotient = scaled / den;
    let root = isqrt_u128(quotient);
    Some(root)
}

} // verus!
