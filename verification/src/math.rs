//! Combinatorial indexing: binomial coefficients and the combination that
//! stands at a given place among the `k`-subsets of `{0, .., n - 1}`.

use crate::bignum::{
    biguint_div, biguint_from_usize, biguint_ge, biguint_mul, biguint_sub, biguint_value,
};
use num_bigint::BigUint;
use vstd::arithmetic::div_mod::lemma_div_by_multiple;
use vstd::prelude::*;

verus! {

/// Why no combination was produced.
#[derive(Debug, Clone, Copy, PartialEq, Eq, Structural)]
pub enum CombinationError {
    /// More elements were asked for than the set has.
    SubsetTooLarge,
    /// The index is not below the number of combinations.
    IndexOutOfRange,
}

impl CombinationError {
    /// A short description of the failure.
    pub fn message(&self) -> (s: &'static str)
        ensures
            s@ == match *self {
                CombinationError::SubsetTooLarge => "k must be less than or equal to n"@,
                CombinationError::IndexOutOfRange =>
                    "index must be less than the number of combinations"@,
            },
    {
        match self {
            CombinationError::SubsetTooLarge => "k must be less than or equal to n",
            CombinationError::IndexOutOfRange => {
                "index must be less than the number of combinations"
            },
        }
    }
}

/// The number of `k`-subsets of a set of `n` elements.
pub open spec fn binomial(n: nat, k: nat) -> nat
    decreases n,
{
    if k == 0 {
        1
    } else if n == 0 {
        0
    } else {
        binomial((n - 1) as nat, (k - 1) as nat) + binomial((n - 1) as nat, k)
    }
}

/// The `k`-subset of `{first, .., n - 1}` at place `index` in the order by
/// smallest differing element, as an increasing sequence: the subsets that
/// hold `first` come first, and there are `binomial(n - first - 1, k - 1)`
/// of them.
pub open spec fn combination_from(first: nat, n: nat, k: nat, index: nat) -> Seq<int>
    decreases n - first,
{
    if k == 0 || first >= n {
        Seq::empty()
    } else {
        let with_first = binomial((n - first - 1) as nat, (k - 1) as nat);
        if index >= with_first {
            combination_from(first + 1, n, k, (index - with_first) as nat)
        } else {
            seq![first as int] + combination_from(first + 1, n, (k - 1) as nat, index)
        }
    }
}

/// The `k`-subset of `{0, .., n - 1}` at place `index`.
pub open spec fn combination_at(n: nat, k: nat, index: nat) -> Seq<int> {
    combination_from(0, n, k, index)
}

/// A set has no subset larger than itself.
pub proof fn lemma_binomial_zero(n: nat, k: nat)
    requires
        k > n,
    ensures
        binomial(n, k) == 0,
    decreases n,
{
    if n > 0 {
        lemma_binomial_zero((n - 1) as nat, (k - 1) as nat);
        lemma_binomial_zero((n - 1) as nat, k);
    }
}

/// A set has at least one subset of every size up to its own.
pub proof fn lemma_binomial_positive(n: nat, k: nat)
    requires
        k <= n,
    ensures
        binomial(n, k) >= 1,
    decreases n,
{
    if k > 0 && n > 0 {
        lemma_binomial_positive((n - 1) as nat, (k - 1) as nat);
    }
}

/// `(i + 1) * C(n, i + 1) == (n - i) * C(n, i)`.
pub proof fn lemma_binomial_step(n: nat, i: nat)
    ensures
        (i + 1) * binomial(n, i + 1) == (n - i) * binomial(n, i),
    decreases n,
{
    if n == 0 {
        if i > 0 {
            assert(binomial(0, i) == 0);
        }
        assert((i + 1) * 0 == 0);
    } else {
        let m = (n - 1) as nat;
        let a = binomial(m, i);
        let b = binomial(m, i + 1);
        assert(binomial(n, i + 1) == a + b);
        lemma_binomial_step(m, i);
        // (i + 1) * b == (m - i) * a
        if i == 0 {
            assert(binomial(n, 0) == 1);
            assert(a == 1);
            assert((i + 1) * (a + b) == (n - i) * 1) by (nonlinear_arith)
                requires
                    (i + 1) * b == (m - i) * a,
                    a == 1,
                    i == 0,
                    m == n - 1,
            ;
        } else {
            let c = binomial(m, (i - 1) as nat);
            assert(binomial(n, i) == c + a);
            lemma_binomial_step(m, (i - 1) as nat);
            // i * a == (m - (i - 1)) * c
            assert((i + 1) * (a + b) == (n - i) * (c + a)) by (nonlinear_arith)
                requires
                    (i + 1) * b == (m - i) * a,
                    (i - 1 + 1) * a == (m - (i - 1)) * c,
                    m == n - 1,
            ;
        }
    }
}

/// The binomial coefficient `C(n, k)`, computed by multiplying and dividing
/// in turn.
pub fn binom(n: usize, k: usize) -> (res: BigUint)
    ensures
        biguint_value(res) == binomial(n as nat, k as nat),
{
    if k > n {
        proof {
            lemma_binomial_zero(n as nat, k as nat);
        }
        return biguint_from_usize(0);
    }
    let mut res = biguint_from_usize(1);
    let mut i: usize = 0;
    while i < k
        invariant
            i <= k <= n,
            biguint_value(res) == binomial(n as nat, i as nat),
        decreases k - i,
    {
        let factor = biguint_from_usize(n - i);
        let divisor = biguint_from_usize(i + 1);
        let scaled = biguint_mul(&res, &factor);
        proof {
            lemma_binomial_step(n as nat, i as nat);
            let next = binomial(n as nat, (i + 1) as nat);
            assert(biguint_value(scaled) == next * (i + 1)) by (nonlinear_arith)
                requires
                    biguint_value(scaled) == binomial(n as nat, i as nat) * (n - i),
                    (i + 1) * next == (n - i) * binomial(n as nat, i as nat),
            ;
            lemma_div_by_multiple(next as int, (i + 1) as int);
        }
        res = biguint_div(&scaled, &divisor);
        i = i + 1;
    }
    res
}

/// The combination at place `index` has `k` elements when `index` is below
/// the number of combinations; they increase and lie in `first..n`.
pub proof fn lemma_combination_shape(first: nat, n: nat, k: nat, index: nat)
    requires
        first <= n,
        index < binomial((n - first) as nat, k),
    ensures
        combination_from(first, n, k, index).len() == k,
        forall|j: int|
            0 <= j < k ==> first <= #[trigger] combination_from(first, n, k, index)[j] < n,
        forall|i: int, j: int|
            0 <= i < j < k ==> combination_from(first, n, k, index)[i] < combination_from(
                first,
                n,
                k,
                index,
            )[j],
    decreases n - first,
{
    if k == 0 {
    } else if first >= n {
        assert(binomial(0, k) == 0);
    } else {
        let with_first = binomial((n - first - 1) as nat, (k - 1) as nat);
        if index >= with_first {
            lemma_combination_shape(first + 1, n, k, (index - with_first) as nat);
        } else {
            lemma_combination_shape(first + 1, n, (k - 1) as nat, index);
            let rest = combination_from(first + 1, n, (k - 1) as nat, index);
            let all = combination_from(first, n, k, index);
            assert(all == seq![first as int] + rest);
            assert forall|j: int| 0 <= j < k implies first <= #[trigger] all[j] < n by {
                if j > 0 {
                    assert(all[j] == rest[j - 1]);
                }
            }
            assert forall|i: int, j: int| 0 <= i < j < k implies all[i] < all[j] by {
                assert(all[j] == rest[j - 1]);
                if i > 0 {
                    assert(all[i] == rest[i - 1]);
                }
            }
        }
    }
}

/// The `k`-subset of `{0, .., n - 1}` at place `index`, as an increasing
/// list: the subsets are ordered by their smallest differing element, and
/// the place is decoded greedily, one candidate element after the other.
pub fn nth_combination(n: usize, k: usize, index: BigUint) -> (r: Result<
    Vec<usize>,
    CombinationError,
>)
    ensures
        r is Ok <==> k <= n && biguint_value(index) < binomial(n as nat, k as nat),
        k > n <==> r == Err::<Vec<usize>, CombinationError>(CombinationError::SubsetTooLarge),
        k <= n && biguint_value(index) >= binomial(n as nat, k as nat) <==> r == Err::<
            Vec<usize>,
            CombinationError,
        >(CombinationError::IndexOutOfRange),
        r matches Ok(c) ==> {
            &&& c@.len() == k
            &&& c@.len() == combination_at(n as nat, k as nat, biguint_value(index)).len()
            &&& forall|j: int|
                0 <= j < k ==> #[trigger] c@[j] == combination_at(
                    n as nat,
                    k as nat,
                    biguint_value(index),
                )[j]
            &&& forall|j: int| 0 <= j < k ==> #[trigger] c@[j] < n
            &&& forall|i: int, j: int| 0 <= i < j < k ==> c@[i] < c@[j]
        },
{
    if k > n {
        return Err(CombinationError::SubsetTooLarge);
    }
    let total = binom(n, k);
    if biguint_ge(&index, &total) {
        return Err(CombinationError::IndexOutOfRange);
    }
    let ghost start = biguint_value(index);
    let ghost target = combination_at(n as nat, k as nat, start);
    proof {
        lemma_combination_shape(0, n as nat, k as nat, start);
    }
    let mut index = index;
    let mut combination: Vec<usize> = Vec::new();
    let mut i: usize = 0;
    while i < n && combination.len() < k
        invariant
            i <= n,
            k <= n,
            combination.len() <= k,
            biguint_value(index) < binomial((n - i) as nat, (k - combination.len()) as nat),
            target.len() == k,
            target.subrange(combination.len() as int, k as int) == combination_from(
                i as nat,
                n as nat,
                (k - combination.len()) as nat,
                biguint_value(index),
            ),
            forall|j: int| 0 <= j < combination.len() ==> #[trigger] combination@[j] == target[j],
        decreases n - i,
    {
        let with_first = binom(n - i - 1, k - combination.len() - 1);
        if biguint_ge(&index, &with_first) {
            index = biguint_sub(&index, &with_first);
        } else {
            proof {
                let len = combination.len() as int;
                let rest = combination_from(
                    (i + 1) as nat,
                    n as nat,
                    (k - len - 1) as nat,
                    biguint_value(index),
                );
                let tail = target.subrange(len, k as int);
                assert(tail == seq![i as int] + rest);
                assert(tail[0] == i);
                assert(target.subrange(len + 1, k as int) =~= rest) by {
                    assert forall|q: int| 0 <= q < k - len - 1 implies target.subrange(
                        len + 1,
                        k as int,
                    )[q] == rest[q] by {
                        assert(tail[q + 1] == rest[q]);
                    }
                    lemma_combination_shape(
                        i as nat,
                        n as nat,
                        (k - len) as nat,
                        biguint_value(index),
                    );
                }
            }
            combination.push(i);
        }
        i = i + 1;
    }
    proof {
        if combination.len() < k {
            assert(binomial(0, (k - combination.len()) as nat) == 0);
        }
    }
    Ok(combination)
}

} // verus!
