use vstd::arithmetic::power2::{lemma2_to64, pow2};
use vstd::prelude::*;

verus! {

/// The binomial coefficient: how many hands of `k` cards can be drawn
/// from `n`.
pub open spec fn spec_binomial(n: int, k: int) -> int
    decreases n, k,
{
    if k < 0 || k > n {
        0
    } else if k == 0 {
        1
    } else {
        spec_binomial(n - 1, k - 1) + spec_binomial(n - 1, k)
    }
}

/// Every binomial coefficient is non-negative and bounded by the power of
/// two of its upper argument.
pub proof fn lemma_binomial_bounds(n: int, k: int)
    requires
        n >= 0,
    ensures
        0 <= spec_binomial(n, k) <= pow2(n as nat),
    decreases n, k,
{
    vstd::arithmetic::power2::lemma_pow2_pos(n as nat);
    if k < 0 || k > n {
    } else if k == 0 {
        assert(pow2(n as nat) >= 1);
    } else {
        lemma_binomial_bounds(n - 1, k - 1);
        lemma_binomial_bounds(n - 1, k);
        assert(pow2((n - 1) as nat) + pow2((n - 1) as nat) == pow2(n as nat)) by {
            vstd::arithmetic::power2::lemma_pow2_unfold(n as nat);
        }
    }
}

/// A binomial coefficient with equal arguments is one.
pub proof fn lemma_binomial_diag(n: int)
    requires
        n >= 0,
    ensures
        spec_binomial(n, n) == 1,
    decreases n,
{
    if n > 0 {
        lemma_binomial_diag(n - 1);
        assert(spec_binomial(n - 1, n) == 0);
    }
}

/// The binomial coefficient, by Pascal's triangle. Rows are bounded so no
/// entry can overflow the machine word.
pub fn binomial(n: usize, k: usize) -> (r: usize)
    requires
        k > n || n <= 30,
    ensures
        r == spec_binomial(n as int, k as int),
{
    if k > n {
        return 0;
    }
    proof {
        lemma2_to64();
    }
    let mut row: Vec<usize> = Vec::new();
    row.push(1);
    let mut i: usize = 0;
    while i < n
        invariant
            i <= n <= 30,
            row@.len() == i + 1,
            forall|j: int| 0 <= j <= i ==> row@[j] == spec_binomial(i as int, j),
        decreases n - i,
    {
        let mut next: Vec<usize> = Vec::new();
        next.push(1);
        let mut j: usize = 1;
        while j <= i
            invariant
                i < n <= 30,
                1 <= j <= i + 1,
                row@.len() == i + 1,
                forall|m: int| 0 <= m <= i ==> row@[m] == spec_binomial(i as int, m),
                next@.len() == j,
                forall|m: int| 0 <= m < j ==> next@[m] == spec_binomial(i + 1, m),
            decreases i + 1 - j,
        {
            proof {
                lemma_binomial_bounds(i as int, j - 1);
                lemma_binomial_bounds(i as int, j as int);
                vstd::arithmetic::power2::lemma_pow2_adds((i) as nat, 1);
                lemma2_to64();
                assert(pow2(i as nat) <= pow2(30)) by {
                    if (i as nat) < 30 {
                        vstd::arithmetic::power2::lemma_pow2_strictly_increases(i as nat, 30);
                    }
                }
            }
            let value = row[j - 1] + row[j];
            next.push(value);
            j = j + 1;
        }
        proof {
            lemma_binomial_diag(i + 1);
        }
        next.push(1);
        row = next;
        i = i + 1;
    }
    row[k]
}

} // verus!
