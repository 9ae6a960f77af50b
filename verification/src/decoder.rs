//! Bit-flipping syndrome decoding: the iterative search shared by the code
//! engine and the certificateless private key.

use crate::binary_matrix_operations::BitMatrix;
use crate::bits::{lemma_xor_sum_add, lemma_xor_sum_one_point, lemma_xor_sum_zero, xor_sum};
use crate::elimination::xor_seq;
use crate::grid::Grid;
use vstd::prelude::*;

verus! {

/// Number of rounds after which the search gives up.
pub const LIMIT: usize = 10;

/// How far below the largest count of unsatisfied checks a position may lie
/// and still be flipped.
pub const DELTA: usize = 5;

/// The terms of parity check `k` of `h` on the word `c`.
pub open spec fn check_term(h: Grid, c: Seq<bool>, k: int) -> spec_fn(int) -> bool {
    |j: int| h.at(k, j) && c[j]
}

/// The syndrome `h * c^T` of the word `c`.
pub open spec fn syndrome(h: Grid, c: Seq<bool>) -> Seq<bool> {
    Seq::new(h.height(), |k: int| xor_sum(check_term(h, c, k), h.width as int))
}

/// Number of the first `rows` parity checks that involve position `j` and
/// are unsatisfied according to the syndrome `s`.
pub open spec fn unsatisfied_upto(h: Grid, s: Seq<bool>, j: int, rows: int) -> nat
    decreases rows,
{
    if rows <= 0 {
        0
    } else {
        unsatisfied_upto(h, s, j, rows - 1) + if h.at(rows - 1, j) && s[rows - 1] {
            1nat
        } else {
            0nat
        }
    }
}

/// Number of unsatisfied parity checks that involve position `j`.
pub open spec fn unsatisfied(h: Grid, s: Seq<bool>, j: int) -> nat {
    unsatisfied_upto(h, s, j, h.height() as int)
}

/// Largest count of unsatisfied checks among the first `cols` positions.
pub open spec fn max_unsatisfied(h: Grid, s: Seq<bool>, cols: int) -> nat
    decreases cols,
{
    if cols <= 0 {
        0
    } else {
        let m = max_unsatisfied(h, s, cols - 1);
        let u = unsatisfied(h, s, cols - 1);
        if u > m {
            u
        } else {
            m
        }
    }
}

/// The count a position must exceed to be flipped: the largest count less
/// `DELTA`, and at least zero.
pub open spec fn threshold(h: Grid, s: Seq<bool>) -> nat {
    let mx = max_unsatisfied(h, s, h.width as int);
    if mx > DELTA {
        (mx - DELTA) as nat
    } else {
        0
    }
}

/// The positions that one round flips, given the syndrome `s` at its start.
pub open spec fn flips(h: Grid, s: Seq<bool>) -> Seq<bool> {
    Seq::new(h.width, |j: int| unsatisfied(h, s, j) > threshold(h, s))
}

/// The syndrome once the error pattern `e` has been taken off a word whose
/// syndrome was `s0`.
pub open spec fn current_syndrome(h: Grid, s0: Seq<bool>, e: Seq<bool>) -> Seq<bool> {
    xor_seq(s0, syndrome(h, e))
}

/// Whether every entry of `s` is `false`.
pub open spec fn all_false(s: Seq<bool>) -> bool {
    forall|i: int| 0 <= i < s.len() ==> !#[trigger] s[i]
}

/// The error pattern found by at most `rounds` further rounds that start
/// from the pattern `e`, or `None` where the syndrome never vanishes.
pub open spec fn search(h: Grid, s0: Seq<bool>, e: Seq<bool>, rounds: nat) -> Option<Seq<bool>>
    decreases rounds,
{
    if rounds == 0 {
        None
    } else {
        let e2 = xor_seq(e, flips(h, current_syndrome(h, s0, e)));
        if all_false(current_syndrome(h, s0, e2)) {
            Some(e2)
        } else {
            search(h, s0, e2, (rounds - 1) as nat)
        }
    }
}

/// The error pattern that bit flipping finds for the syndrome `s0`.
pub open spec fn error_pattern(h: Grid, s0: Seq<bool>) -> Option<Seq<bool>> {
    search(h, s0, Seq::new(h.width, |j: int| false), LIMIT as nat)
}

/// The all-zero word of `n` bits.
pub open spec fn zeros(n: nat) -> Seq<bool> {
    Seq::new(n, |j: int| false)
}

/// The syndrome of a sum of two words is the sum of their syndromes.
pub proof fn lemma_syndrome_of_sum(h: Grid, c: Seq<bool>, e: Seq<bool>)
    requires
        c.len() == h.width,
        e.len() == h.width,
    ensures
        syndrome(h, xor_seq(c, e)) == xor_seq(syndrome(h, c), syndrome(h, e)),
{
    let l = syndrome(h, xor_seq(c, e));
    let r = xor_seq(syndrome(h, c), syndrome(h, e));
    assert forall|k: int| 0 <= k < h.height() implies #[trigger] l[k] == r[k] by {
        let both = check_term(h, xor_seq(c, e), k);
        let first = check_term(h, c, k);
        let second = check_term(h, e, k);
        assert forall|j: int| 0 <= j < h.width implies #[trigger] both(j) == (first(j) != second(
            j,
        )) by {
            assert(xor_seq(c, e)[j] == (c[j] != e[j]));
        }
        lemma_xor_sum_add(first, second, both, h.width as int);
    }
    assert(l =~= r);
}

/// With a zero syndrome no check is unsatisfied.
pub proof fn lemma_unsatisfied_zero(h: Grid, s: Seq<bool>, j: int, rows: int)
    requires
        all_false(s),
        rows <= s.len(),
    ensures
        unsatisfied_upto(h, s, j, rows) == 0,
    decreases rows,
{
    if rows > 0 {
        lemma_unsatisfied_zero(h, s, j, rows - 1);
    }
}

/// With a zero syndrome the largest count of unsatisfied checks is zero.
pub proof fn lemma_max_unsatisfied_zero(h: Grid, s: Seq<bool>, cols: int)
    requires
        all_false(s),
        s.len() == h.height(),
    ensures
        max_unsatisfied(h, s, cols) == 0,
    decreases cols,
{
    if cols > 0 {
        lemma_max_unsatisfied_zero(h, s, cols - 1);
        lemma_unsatisfied_zero(h, s, cols - 1, h.height() as int);
    }
}

/// A word whose syndrome vanishes is left as it is: the search stops after
/// its first round with the empty error pattern.
pub proof fn lemma_zero_syndrome_decodes(h: Grid, s0: Seq<bool>)
    requires
        s0.len() == h.height(),
        all_false(s0),
    ensures
        error_pattern(h, s0) == Some(zeros(h.width)),
{
    let e = Seq::new(h.width, |j: int| false);
    let z = syndrome(h, e);
    assert forall|q: int| 0 <= q < h.height() implies !#[trigger] z[q] by {
        lemma_xor_sum_zero(check_term(h, e, q), h.width as int);
    }
    let cur = current_syndrome(h, s0, e);
    assert(cur =~= s0);
    lemma_max_unsatisfied_zero(h, cur, h.width as int);
    let f = flips(h, cur);
    assert forall|j: int| 0 <= j < h.width implies !#[trigger] f[j] by {
        lemma_unsatisfied_zero(h, cur, j, h.height() as int);
    }
    let e2 = xor_seq(e, f);
    assert(e2 =~= e);
    assert(search(h, s0, e, LIMIT as nat) == Some(e2));
}

/// The syndrome of `word` under the parity checks `h`.
pub fn compute_syndrome(h: &BitMatrix, word: &Vec<bool>) -> (s: Vec<bool>)
    requires
        word@.len() == h@.width,
    ensures
        s@ == syndrome(h@, word@),
{
    let r = h.nrows();
    let n = h.ncols();
    let mut s: Vec<bool> = Vec::new();
    let mut k: usize = 0;
    while k < r
        invariant
            k <= r,
            r == h@.height(),
            n == h@.width,
            n == word@.len(),
            s.len() == k,
            forall|q: int|
                0 <= q < k ==> #[trigger] s[q] == xor_sum(check_term(h@, word@, q), n as int),
        decreases r - k,
    {
        let mut acc = false;
        let mut j: usize = 0;
        while j < n
            invariant
                j <= n,
                k < r,
                r == h@.height(),
                n == h@.width,
                n == word@.len(),
                acc == xor_sum(check_term(h@, word@, k as int), j as int),
            decreases n - j,
        {
            if h.get(k, j) && word[j] {
                acc = !acc;
            }
            j = j + 1;
        }
        s.push(acc);
        k = k + 1;
    }
    assert(s@ =~= syndrome(h@, word@));
    s
}

/// Flips position `j` of the error pattern and brings the syndrome up to date.
fn flip_position(
    h: &BitMatrix,
    e: &mut Vec<bool>,
    syn: &mut Vec<bool>,
    j: usize,
    Ghost(s0): Ghost<Seq<bool>>,
)
    requires
        old(e)@.len() == h@.width,
        old(syn)@.len() == h@.height(),
        s0.len() == h@.height(),
        j < h@.width,
        old(syn)@ == current_syndrome(h@, s0, old(e)@),
    ensures
        final(e)@ == old(e)@.update(j as int, !old(e)@[j as int]),
        final(syn)@ == current_syndrome(h@, s0, final(e)@),
{
    let r = h.nrows();
    let cur = e[j];
    e[j] = !cur;
    let mut k: usize = 0;
    while k < r
        invariant
            k <= r,
            r == h@.height(),
            j < h@.width,
            syn.len() == r,
            old(syn)@.len() == r,
            forall|q: int| 0 <= q < k ==> #[trigger] syn[q] == (old(syn)@[q] != h@.at(q, j as int)),
            forall|q: int| k <= q < r ==> #[trigger] syn[q] == old(syn)@[q],
        decreases r - k,
    {
        if h.get(k, j) {
            let bit = syn[k];
            syn[k] = !bit;
        }
        k = k + 1;
    }
    proof {
        let want = current_syndrome(h@, s0, e@);
        assert forall|q: int| 0 <= q < r implies #[trigger] syn[q] == want[q] by {
            lemma_xor_sum_one_point(
                check_term(h@, old(e)@, q),
                check_term(h@, e@, q),
                h@.width as int,
                j as int,
            );
        }
        assert(syn@ =~= want);
    }
}

/// Counts, for every position, the unsatisfied parity checks that involve it.
fn count_unsatisfied(h: &BitMatrix, syn: &Vec<bool>) -> (counts: Vec<usize>)
    requires
        syn@.len() == h@.height(),
    ensures
        counts@.len() == h@.width,
        forall|j: int| 0 <= j < h@.width ==> #[trigger] counts[j] == unsatisfied(h@, syn@, j),
{
    let r = h.nrows();
    let n = h.ncols();
    let mut counts: Vec<usize> = Vec::new();
    let mut j: usize = 0;
    while j < n
        invariant
            j <= n,
            r == h@.height(),
            n == h@.width,
            syn@.len() == r,
            counts.len() == j,
            forall|c: int| 0 <= c < j ==> #[trigger] counts[c] == unsatisfied(h@, syn@, c),
        decreases n - j,
    {
        let mut count: usize = 0;
        let mut k: usize = 0;
        while k < r
            invariant
                k <= r,
                j < n,
                r == h@.height(),
                n == h@.width,
                syn@.len() == r,
                count <= k,
                count == unsatisfied_upto(h@, syn@, j as int, k as int),
            decreases r - k,
        {
            if h.get(k, j) && syn[k] {
                count = count + 1;
            }
            k = k + 1;
        }
        counts.push(count);
        j = j + 1;
    }
    counts
}

/// Whether every entry of `s` is `false`.
pub fn is_all_false(s: &Vec<bool>) -> (b: bool)
    ensures
        b == all_false(s@),
{
    let mut i: usize = 0;
    while i < s.len()
        invariant
            i <= s.len(),
            forall|q: int| 0 <= q < i ==> !#[trigger] s[q],
        decreases s.len() - i,
    {
        if s[i] {
            return false;
        }
        i = i + 1;
    }
    true
}

/// Searches by bit flipping for an error pattern that accounts for the
/// syndrome `s0`: at most `LIMIT` rounds, each flipping every position whose
/// count of unsatisfied checks exceeds the round's threshold.
pub fn bit_flip_search(h: &BitMatrix, s0: &Vec<bool>) -> (r: Option<Vec<bool>>)
    requires
        s0@.len() == h@.height(),
    ensures
        match r {
            Some(e) => error_pattern(h@, s0@) == Some(e@) && e@.len() == h@.width,
            None => error_pattern(h@, s0@) is None,
        },
{
    let n = h.ncols();
    let mut e: Vec<bool> = vec![false; n];
    let mut syn: Vec<bool> = s0.clone();
    assert(e@ =~= Seq::new(n as nat, |j: int| false));
    proof {
        assert(syn@ =~= s0@);
        let z = syndrome(h@, e@);
        assert forall|q: int| 0 <= q < h@.height() implies !#[trigger] z[q] by {
            lemma_xor_sum_zero(check_term(h@, e@, q), n as int);
        }
        assert(syn@ =~= current_syndrome(h@, s0@, e@));
    }
    let mut round: usize = 0;
    while round < LIMIT
        invariant
            round <= LIMIT,
            n == h@.width,
            e@.len() == n,
            syn@.len() == h@.height(),
            s0@.len() == h@.height(),
            syn@ == current_syndrome(h@, s0@, e@),
            error_pattern(h@, s0@) == search(h@, s0@, e@, (LIMIT - round) as nat),
        decreases LIMIT - round,
    {
        let counts = count_unsatisfied(h, &syn);
        let mut mx: usize = 0;
        let mut j: usize = 0;
        while j < n
            invariant
                j <= n,
                n == h@.width,
                counts@.len() == n,
                forall|c: int| 0 <= c < n ==> #[trigger] counts[c] == unsatisfied(h@, syn@, c),
                mx == max_unsatisfied(h@, syn@, j as int),
            decreases n - j,
        {
            if counts[j] > mx {
                mx = counts[j];
            }
            j = j + 1;
        }
        let b: usize = if mx > DELTA {
            mx - DELTA
        } else {
            0
        };
        let ghost e0 = e@;
        let ghost syn0 = syn@;
        let ghost f = flips(h@, syn0);
        let mut j: usize = 0;
        while j < n
            invariant
                j <= n,
                n == h@.width,
                e@.len() == n,
                e0.len() == n,
                syn@.len() == h@.height(),
                s0@.len() == h@.height(),
                counts@.len() == n,
                forall|c: int| 0 <= c < n ==> #[trigger] counts[c] == unsatisfied(h@, syn0, c),
                b == threshold(h@, syn0),
                f == flips(h@, syn0),
                syn@ == current_syndrome(h@, s0@, e@),
                forall|c: int| 0 <= c < j ==> #[trigger] e[c] == (e0[c] != f[c]),
                forall|c: int| j <= c < n ==> #[trigger] e[c] == e0[c],
            decreases n - j,
        {
            if counts[j] > b {
                flip_position(h, &mut e, &mut syn, j, Ghost(s0@));
            }
            j = j + 1;
        }
        assert(e@ =~= xor_seq(e0, f));
        if is_all_false(&syn) {
            return Some(e);
        }
        round = round + 1;
    }
    None
}

} // verus!
