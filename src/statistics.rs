use vstd::prelude::*;
use crate::input::Input;

verus! {

/// Sum of a list of measurements.
pub open spec fn sum(s: Seq<i64>) -> int
    decreases s.len(),
{
    if s.len() == 0 {
        0
    } else {
        sum(s.drop_last()) + s.last()
    }
}

/// Integer division rounded toward zero, as Rust's `/` on signed integers.
pub open spec fn div_toward_zero(a: int, b: int) -> int {
    if a >= 0 {
        a / b
    } else {
        -((-a) / b)
    }
}

/// The mean of `s`, rounded toward zero.
pub open spec fn average(s: Seq<i64>) -> int {
    div_toward_zero(sum(s), s.len() as int)
}

pub open spec fn abs(x: int) -> int {
    if x < 0 {
        -x
    } else {
        x
    }
}

/// Distance of `x` from the exact mean of `s`, scaled by the length of `s`:
/// `|x - mean(s)| * len(s)`. Scaling keeps the comparison exact.
pub open spec fn scaled_deviation(s: Seq<i64>, x: i64) -> int {
    abs(s.len() * x - sum(s))
}

/// `k` is the first position whose measurement lies farthest from the mean.
pub open spec fn is_outlier(s: Seq<i64>, k: int) -> bool {
    &&& 0 <= k < s.len()
    &&& forall|j: int| 0 <= j < s.len() ==> scaled_deviation(s, s[j]) <= scaled_deviation(s, s[k])
    &&& forall|j: int| 0 <= j < k ==> scaled_deviation(s, s[j]) < scaled_deviation(s, s[k])
}

/// The measurements of a list of results.
pub open spec fn measurements<I>(counts: Seq<(i64, (I, Input))>) -> Seq<i64> {
    counts.map_values(|p: (i64, (I, Input))| p.0)
}

proof fn lemma_sum_bounds(s: Seq<i64>)
    ensures
        s.len() * (i64::MIN as int) <= sum(s) <= s.len() * (i64::MAX as int),
    decreases s.len(),
{
    if s.len() > 0 {
        lemma_sum_bounds(s.drop_last());
    }
}

/// Average of a non-empty list, rounded toward zero.
pub fn get_average(input: &[i64]) -> (r: i64)
    requires
        input@.len() > 0,
    ensures
        r == average(input@),
{
    let n: usize = input.len();
    let mut total: i128 = 0;
    let mut i: usize = 0;
    while i < n
        invariant
            n == input@.len(),
            i <= n,
            total == sum(input@.subrange(0, i as int)),
            i * (i64::MIN as int) <= total <= i * (i64::MAX as int),
        decreases n - i,
    {
        proof {
            assert(input@.subrange(0, i + 1).drop_last() =~= input@.subrange(0, i as int));
        }
        total = total + input[i] as i128;
        i = i + 1;
    }
    assert(input@.subrange(0, n as int) =~= input@);
    let d: i128 = n as i128;
    let q: i128 = if total >= 0 {
        total / d
    } else {
        -((-total) / d)
    };
    proof {
        let t = total as int;
        let nn = n as int;
        if t >= 0 {
            assert(t / nn <= i64::MAX) by (nonlinear_arith)
                requires
                    0 <= t <= nn * (i64::MAX as int),
                    nn > 0,
            ;
            assert(t / nn >= 0) by (nonlinear_arith)
                requires
                    0 <= t,
                    nn > 0,
            ;
        } else {
            assert((-t) / nn <= 0x8000_0000_0000_0000) by (nonlinear_arith)
                requires
                    0 <= -t <= nn * 0x8000_0000_0000_0000,
                    nn > 0,
            ;
            assert((-t) / nn >= 0) by (nonlinear_arith)
                requires
                    0 <= -t,
                    nn > 0,
            ;
        }
    }
    q as i64
}

/// Position of the first measurement farthest from the mean.
pub fn outlier_index(counts: &[i64]) -> (r: usize)
    requires
        0 < counts@.len() <= 0x4000_0000_0000_0000,
    ensures
        is_outlier(counts@, r as int),
{
    let n: usize = counts.len();
    let mut total: i128 = 0;
    let mut i: usize = 0;
    while i < n
        invariant
            n == counts@.len(),
            n <= 0x4000_0000_0000_0000,
            i <= n,
            total == sum(counts@.subrange(0, i as int)),
            i * (i64::MIN as int) <= total <= i * (i64::MAX as int),
        decreases n - i,
    {
        proof {
            assert(counts@.subrange(0, i + 1).drop_last() =~= counts@.subrange(0, i as int));
        }
        total = total + counts[i] as i128;
        i = i + 1;
    }
    assert(counts@.subrange(0, n as int) =~= counts@);
    let ghost s = counts@;
    let nn: i128 = n as i128;
    let mut best: usize = 0;
    let mut best_dev: i128 = -1;
    let mut j: usize = 0;
    while j < n
        invariant
            n == s.len(),
            s == counts@,
            nn == n as i128,
            n <= 0x4000_0000_0000_0000,
            total == sum(s),
            n * (i64::MIN as int) <= total <= n * (i64::MAX as int),
            j <= n,
            j == 0 ==> best_dev == -1 && best == 0,
            j > 0 ==> best < j && best_dev == scaled_deviation(s, s[best as int]),
            forall|k: int| 0 <= k < j ==> scaled_deviation(s, s[k]) <= best_dev,
            forall|k: int| 0 <= k < best ==> scaled_deviation(s, s[k]) < best_dev,
        decreases n - j,
    {
        let x: i128 = counts[j] as i128;
        proof {
            let xi = x as int;
            let ni = nn as int;
            assert(ni * (i64::MIN as int) <= ni * xi <= ni * (i64::MAX as int)) by (nonlinear_arith)
                requires
                    i64::MIN <= xi <= i64::MAX,
                    0 <= ni,
            ;
        }
        let scaled: i128 = nn * x - total;
        let dev: i128 = if scaled < 0 {
            -scaled
        } else {
            scaled
        };
        if dev > best_dev {
            best_dev = dev;
            best = j;
        }
        j = j + 1;
    }
    best
}

/// The result whose measurement lies farthest from the mean; on a tie, the first.
pub fn find_outlier<I>(counts: &[(i64, (I, Input))]) -> (r: Option<&(i64, (I, Input))>)
    requires
        0 < counts@.len() <= 0x4000_0000_0000_0000,
    ensures
        r is Some,
        exists|k: int| is_outlier(measurements(counts@), k) && *r->Some_0 == counts@[k],
{
    let mut second: Vec<i64> = Vec::with_capacity(counts.len());
    let mut i: usize = 0;
    while i < counts.len()
        invariant
            i <= counts@.len(),
            second@ == measurements(counts@).subrange(0, i as int),
        decreases counts@.len() - i,
    {
        second.push(counts[i].0);
        i = i + 1;
    }
    assert(second@ =~= measurements(counts@));
    let k = outlier_index(second.as_slice());
    Some(&counts[k])
}

} // verus!
