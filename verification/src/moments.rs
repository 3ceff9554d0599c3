use vstd::prelude::*;

verus! {

/// A sample whose variance is zero: its skewness and kurtosis do not exist.
#[derive(Debug, Clone, Copy, PartialEq, Eq)]
pub struct DegenerateSampleError;

/// Sum of the sample's numerators.
pub open spec fn total(s: Seq<u32>) -> int
    decreases s.len(),
{
    if s.len() == 0 {
        0
    } else {
        total(s.drop_last()) + s.last()
    }
}

/// Sum, over the first `k` values of the sample, of the squared distance to
/// the mean, each distance scaled by the sample's length `n` to keep it whole:
/// the sum of `(n * x - total)^2`.
pub open spec fn squared_deviations(s: Seq<u32>, k: nat) -> int
    decreases k,
{
    if k == 0 {
        0
    } else {
        let d = s.len() * s[k - 1] - total(s);
        squared_deviations(s, (k - 1) as nat) + d * d
    }
}

/// The sample's population variance as a whole number: the variance of the
/// fractions times `n^3 * MODULUS^2`, for a sample of `n` values.
pub open spec fn scaled_variance(s: Seq<u32>) -> int {
    squared_deviations(s, s.len())
}

/// Every value of the sample is the same.
pub open spec fn constant(s: Seq<u32>) -> bool {
    forall|i: int, j: int| 0 <= i < s.len() && 0 <= j < s.len() ==> s[i] == s[j]
}

/// Decides whether skewness and kurtosis can be computed from `data`: they
/// cannot where the variance is zero, which is the case for an empty sample
/// and for one that repeats a single value.
pub fn check_sample(data: &[u32]) -> (r: Result<(), DegenerateSampleError>)
    ensures
        r is Err <==> scaled_variance(data@) == 0,
{
    let n: usize = data.len();
    if n == 0 {
        return Err(DegenerateSampleError);
    }
    let first: u32 = data[0];
    let mut i: usize = 1;
    while i < n
        invariant
            1 <= i <= n,
            n == data@.len(),
            first == data@[0],
            forall|j: int| 0 <= j < i ==> data@[j] == first,
        decreases n - i,
    {
        if data[i] != first {
            proof {
                lemma_zero_variance_iff_constant(data@);
            }
            return Ok(());
        }
        i = i + 1;
    }
    proof {
        lemma_zero_variance_iff_constant(data@);
    }
    Err(DegenerateSampleError)
}

/// The variance of a sample is zero exactly when all its values are the same.
pub proof fn lemma_zero_variance_iff_constant(s: Seq<u32>)
    ensures
        scaled_variance(s) == 0 <==> constant(s),
{
    let n = s.len();
    lemma_squared_deviations_zero(s, n);
    if constant(s) {
        if n > 0 {
            lemma_total_of_constant(s);
        }
    } else {
        let (i, j) = choose|i: int, j: int| 0 <= i < s.len() && 0 <= j < s.len() && s[i] != s[j];
        assert(n * s[i] != n * s[j]) by (nonlinear_arith)
            requires
                n > 0,
                s[i] != s[j],
        ;
    }
}

/// A sum of squares is never negative, and is zero exactly when each term is:
/// when each of the first `k` values, times the length, is the total.
pub proof fn lemma_squared_deviations_zero(s: Seq<u32>, k: nat)
    requires
        k <= s.len(),
    ensures
        squared_deviations(s, k) >= 0,
        squared_deviations(s, k) == 0 <==> forall|i: int|
            0 <= i < k ==> s.len() * #[trigger] s[i] == total(s),
    decreases k,
{
    if k > 0 {
        lemma_squared_deviations_zero(s, (k - 1) as nat);
        let d = s.len() * s[k - 1] - total(s);
        assert(d * d >= 0 && (d * d == 0 <==> d == 0)) by (nonlinear_arith);
    }
}

/// The total of a sample that repeats one value is that value times the
/// sample's length.
pub proof fn lemma_total_of_constant(s: Seq<u32>)
    requires
        s.len() > 0,
        constant(s),
    ensures
        total(s) == s.len() * s[0],
    decreases s.len(),
{
    let n = s.len();
    if n == 1 {
        assert(total(s.drop_last()) == 0);
    } else {
        let shorter = s.drop_last();
        assert(constant(shorter));
        lemma_total_of_constant(shorter);
        assert(shorter[0] == s[0]);
        assert(s.last() == s[0]);
        assert((n - 1) * s[0] + s[0] == n * s[0]) by (nonlinear_arith);
    }
}

} // verus!
