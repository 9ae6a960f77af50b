//! Circulant blocks as polynomials over GF(2) modulo `x^p + 1`: cyclic
//! convolution of first rows, and how it matches the matrix algebra.

use crate::bits::{
    inner_sums, lemma_xor_sum_exchange, lemma_xor_sum_ext, lemma_xor_sum_one_point,
    lemma_xor_sum_reverse, lemma_xor_sum_rotate, lemma_xor_sum_scale, lemma_xor_sum_single,
    outer_sums, reversed, rotated, xor_sum,
};
use crate::grid::{
    circ, dot_term, identity, inverse, is_inverse_pair, is_invertible, lemma_grid_ext,
    lemma_inverse_is, lemma_product_assoc, product, Grid,
};
use vstd::arithmetic::div_mod::{
    lemma_fundamental_div_mod, lemma_mod_multiples_vanish, lemma_small_mod,
};
use vstd::prelude::*;

verus! {

/// The terms of coefficient `k` of the cyclic convolution of `a` and `b`.
pub open spec fn conv_term(a: Seq<bool>, b: Seq<bool>, k: int) -> spec_fn(int) -> bool {
    |i: int| a[i] && b[(k - i) % (a.len() as int)]
}

/// The product of the polynomials `a` and `b` modulo `x^p + 1`, `p` being
/// their common length and entry `i` the coefficient of `x^i`: coefficient
/// `k` is the sum of all `a[i] * b[j]` with `i + j` congruent to `k`.
pub open spec fn convolve(a: Seq<bool>, b: Seq<bool>) -> Seq<bool> {
    Seq::new(a.len(), |k: int| xor_sum(conv_term(a, b, k), a.len() as int))
}

/// The polynomial `1` among the polynomials of `p` coefficients.
pub open spec fn unit(p: nat) -> Seq<bool> {
    Seq::new(p, |i: int| i == 0)
}

/// The terms of coefficient `i` of `c` reduced modulo `x^p + 1`.
pub open spec fn fold_term(c: Seq<bool>, p: nat, i: int) -> spec_fn(int) -> bool {
    |j: int| j % (p as int) == i && c[j]
}

/// The polynomial `c` reduced modulo `x^p + 1`: coefficient `i` collects
/// the coefficients of `c` whose degree is congruent to `i`.
pub open spec fn fold(c: Seq<bool>, p: nat) -> Seq<bool> {
    Seq::new(p, |i: int| xor_sum(fold_term(c, p, i), c.len() as int))
}

/// The polynomial `x^p + 1` as a list of coefficients, highest degree first.
pub open spec fn cyclic_modulus(p: nat) -> Seq<bool> {
    Seq::new(p + 1, |i: int| i == 0 || i == p)
}

/// A list of coefficients read in the opposite direction.
pub open spec fn turned(c: Seq<bool>) -> Seq<bool> {
    Seq::new(c.len(), |i: int| c[c.len() - 1 - i])
}

/// Whether some coefficient is set.
pub open spec fn is_nonzero(c: Seq<bool>) -> bool {
    exists|i: int| 0 <= i < c.len() && c[i]
}

/// Whether `a` has an inverse modulo `x^p + 1`.
pub open spec fn has_cyclic_inverse(a: Seq<bool>) -> bool {
    exists|v: Seq<bool>| v.len() == a.len() && #[trigger] convolve(a, v) == unit(a.len())
}

/// The inverse of `a` modulo `x^p + 1`, where there is one.
pub open spec fn cyclic_inverse(a: Seq<bool>) -> Seq<bool> {
    choose|v: Seq<bool>| v.len() == a.len() && #[trigger] convolve(a, v) == unit(a.len())
}

/// `x` and `y` that differ by a multiple of `p` have the same remainder.
pub proof fn lemma_mod_congruent(x: int, y: int, q: int, p: int)
    requires
        p > 0,
        x == y + q * p,
    ensures
        x % p == y % p,
{
    lemma_mod_multiples_vanish(q, y, p);
    assert(p * q + y == x) by (nonlinear_arith)
        requires
            x == y + q * p,
    ;
}

/// Index arithmetic behind the product of two circulant matrices.
pub proof fn lemma_circulant_indices(d: int, i: int, j: int, p: int)
    requires
        p > 0,
        0 <= d < p,
    ensures
        ((d + i) % p - i) % p == d,
        (j - (d + i) % p) % p == ((j - i) % p - d) % p,
{
    let k = (d + i) % p;
    let q = (d + i) / p;
    lemma_fundamental_div_mod(d + i, p);
    assert(k - i == d + (-q) * p) by (nonlinear_arith)
        requires
            d + i == p * q + k,
    ;
    lemma_mod_congruent(k - i, d, -q, p);
    lemma_small_mod(d as nat, p as nat);
    let r = (j - i) % p;
    let q2 = (j - i) / p;
    lemma_fundamental_div_mod(j - i, p);
    assert(j - k == r - d + (q2 + q) * p) by (nonlinear_arith)
        requires
            d + i == p * q + k,
            j - i == p * q2 + r,
    ;
    lemma_mod_congruent(j - k, r - d, q2 + q, p);
}

/// The first row of a square circulant matrix is the vector it is made of.
pub proof fn lemma_circ_first_row(a: Seq<bool>)
    requires
        a.len() >= 1,
    ensures
        circ(a).rows[0] == a,
        circ(a).has_shape(a.len(), a.len()),
{
    let p = a.len() as int;
    assert forall|j: int| 0 <= j < p implies #[trigger] circ(a).rows[0][j] == a[j] by {
        lemma_small_mod(j as nat, p as nat);
        assert(j - 0 * 1 == j);
    }
    assert(circ(a).rows[0] =~= a);
}

/// The product of two circulant matrices is the circulant matrix of the
/// cyclic convolution of their first rows.
pub proof fn lemma_circ_product(a: Seq<bool>, b: Seq<bool>)
    requires
        a.len() == b.len(),
    ensures
        product(circ(a), circ(b)) == circ(convolve(a, b)),
{
    let p = a.len() as int;
    let l = product(circ(a), circ(b));
    let r = circ(convolve(a, b));
    assert forall|i: int, j: int| 0 <= i < p && 0 <= j < p implies #[trigger] l.at(i, j) == r.at(
        i,
        j,
    ) by {
        let t = dot_term(circ(a), circ(b), i, j);
        let k = (j - i) % p;
        let c = conv_term(a, b, k);
        assert(i * 1 == i);
        assert(r.at(i, j) == convolve(a, b)[k]);
        assert forall|d: int| 0 <= d < p implies #[trigger] c(d) == rotated(t, p, i)(d) by {
            lemma_circulant_indices(d, i, j, p);
            let kk = (d + i) % p;
            assert(0 <= kk < p);
            assert(kk * 1 == kk);
            assert(circ(a).at(i, kk) == a[(kk - i) % p]);
            assert(circ(b).at(kk, j) == b[(j - kk) % p]);
        }
        lemma_xor_sum_ext(c, rotated(t, p, i), p);
        lemma_xor_sum_rotate(t, p, i);
    }
    lemma_grid_ext(l, r);
}

/// The circulant matrix of the polynomial `1` is the identity.
pub proof fn lemma_circ_unit(p: nat)
    ensures
        circ(unit(p)) == identity(p),
{
    let l = circ(unit(p));
    assert forall|i: int, j: int| 0 <= i < p && 0 <= j < p implies #[trigger] l.at(i, j) == (i
        == j) by {
        assert(i * 1 == i);
        if j >= i {
            lemma_small_mod((j - i) as nat, p);
        } else {
            lemma_mod_congruent(j - i, j - i + p, -1, p as int);
            lemma_small_mod((j - i + p) as nat, p);
        }
    }
    lemma_grid_ext(l, identity(p));
}

/// Cyclic convolution is commutative.
pub proof fn lemma_convolve_commutative(a: Seq<bool>, b: Seq<bool>)
    requires
        a.len() == b.len(),
    ensures
        convolve(a, b) == convolve(b, a),
{
    let p = a.len() as int;
    assert forall|k: int| 0 <= k < p implies #[trigger] convolve(a, b)[k] == convolve(b, a)[k] by {
        let t = conv_term(b, a, k);
        let c = conv_term(a, b, k);
        let r = reversed(t, p);
        let s = p - 1 - k;
        assert forall|i: int| 0 <= i < p implies #[trigger] c(i) == rotated(r, p, s)(i) by {
            let m = (i + s) % p;
            let q = (i + s) / p;
            lemma_fundamental_div_mod(i + s, p);
            // p - 1 - m is the remainder of k - i
            assert(k - i == p - 1 - m + (-q) * p) by (nonlinear_arith)
                requires
                    i + s == p * q + m,
                    s == p - 1 - k,
            ;
            lemma_mod_congruent(k - i, p - 1 - m, -q, p);
            lemma_small_mod((p - 1 - m) as nat, p as nat);
            let u = (k - i) % p;
            assert(u == p - 1 - m);
            // and i is the remainder of k - u
            assert(k - u == i + (-q) * p) by (nonlinear_arith)
                requires
                    i + s == p * q + m,
                    s == p - 1 - k,
                    u == p - 1 - m,
            ;
            lemma_mod_congruent(k - u, i, -q, p);
            lemma_small_mod(i as nat, p as nat);
        }
        lemma_xor_sum_ext(c, rotated(r, p, s), p);
        lemma_xor_sum_rotate(r, p, s);
        lemma_xor_sum_reverse(t, p);
    }
    assert(convolve(a, b) =~= convolve(b, a));
}

/// Cyclic convolution is associative.
pub proof fn lemma_convolve_associative(a: Seq<bool>, b: Seq<bool>, c: Seq<bool>)
    requires
        a.len() == b.len(),
        b.len() == c.len(),
    ensures
        convolve(convolve(a, b), c) == convolve(a, convolve(b, c)),
{
    if a.len() == 0 {
        assert(convolve(convolve(a, b), c) =~= convolve(a, convolve(b, c)));
    } else {
        lemma_circ_product(a, b);
        lemma_circ_product(convolve(a, b), c);
        lemma_circ_product(b, c);
        lemma_circ_product(a, convolve(b, c));
        lemma_circ_first_row(a);
        lemma_circ_first_row(b);
        lemma_circ_first_row(c);
        lemma_product_assoc(circ(a), circ(b), circ(c));
        lemma_circ_first_row(convolve(convolve(a, b), c));
        lemma_circ_first_row(convolve(a, convolve(b, c)));
    }
}

/// The polynomial `1` is neutral for cyclic convolution.
pub proof fn lemma_convolve_unit(a: Seq<bool>)
    ensures
        convolve(a, unit(a.len())) == a,
        convolve(unit(a.len()), a) == a,
{
    if a.len() == 0 {
        assert(convolve(a, unit(a.len())) =~= a);
        assert(convolve(unit(a.len()), a) =~= a);
    } else {
        let p = a.len();
        lemma_circ_product(a, unit(p));
        lemma_circ_unit(p);
        lemma_circ_first_row(a);
        crate::grid::lemma_product_identity_right(circ(a));
        lemma_circ_first_row(convolve(a, unit(p)));
        lemma_convolve_commutative(a, unit(p));
    }
}

/// The convolution of two vectors is row 0 of the product of their
/// circulant matrices.
pub proof fn law_convolve_is_first_row(a: Seq<bool>, b: Seq<bool>)
    requires
        a.len() == b.len(),
        a.len() >= 1,
    ensures
        convolve(a, b) == product(circ(a), circ(b)).rows[0],
{
    lemma_circ_product(a, b);
    lemma_circ_first_row(convolve(a, b));
}

/// A vector and a vector that multiplies it to 1 modulo `x^p + 1` give
/// circulant matrices that are inverse to each other.
pub proof fn lemma_circulant_of_inverse(a: Seq<bool>, v: Seq<bool>)
    requires
        a.len() == v.len(),
        convolve(a, v) == unit(a.len()),
    ensures
        is_inverse_pair(circ(a), circ(v)),
{
    let p = a.len();
    lemma_circ_product(a, v);
    lemma_circ_product(v, a);
    lemma_convolve_commutative(a, v);
    lemma_circ_unit(p);
    assert(circ(a).has_shape(p, p));
    assert(circ(v).has_shape(p, p));
}

/// A vector has an inverse modulo `x^p + 1` exactly when its circulant
/// matrix is invertible.
pub proof fn lemma_cyclic_inverse_iff_invertible(a: Seq<bool>)
    ensures
        has_cyclic_inverse(a) <==> is_invertible(circ(a)),
{
    let p = a.len();
    if has_cyclic_inverse(a) {
        let v = choose|v: Seq<bool>| v.len() == a.len() && #[trigger] convolve(a, v) == unit(p);
        lemma_circulant_of_inverse(a, v);
    }
    if is_invertible(circ(a)) {
        let x = choose|x: Grid| is_inverse_pair(circ(a), x);
        if p == 0 {
            let v = Seq::<bool>::empty();
            assert(convolve(a, v) =~= unit(p));
        } else {
            // row 0 of x * circ(a) is the convolution of row 0 of x with a
            let v = x.rows[0];
            let xa = product(x, circ(a));
            assert forall|j: int| 0 <= j < p implies #[trigger] convolve(v, a)[j] == xa.at(
                0,
                j,
            ) by {
                let t = dot_term(x, circ(a), 0, j);
                let c = conv_term(v, a, j);
                assert forall|k: int| 0 <= k < p implies #[trigger] c(k) == t(k) by {
                    assert(k * 1 == k);
                }
                lemma_xor_sum_ext(c, t, p as int);
            }
            assert(convolve(v, a) =~= unit(p));
            lemma_convolve_commutative(a, v);
        }
    }
}

/// Inverses modulo `x^p + 1` are unique.
pub proof fn lemma_cyclic_inverse_unique(a: Seq<bool>, v: Seq<bool>, w: Seq<bool>)
    requires
        v.len() == a.len(),
        w.len() == a.len(),
        convolve(a, v) == unit(a.len()),
        convolve(a, w) == unit(a.len()),
    ensures
        v == w,
{
    // v = v (a w) = (v a) w = w
    lemma_convolve_unit(v);
    lemma_convolve_unit(w);
    lemma_convolve_associative(v, a, w);
    lemma_convolve_commutative(v, a);
}

/// A vector that multiplies `a` to 1 is the inverse of `a`.
pub proof fn lemma_cyclic_inverse_is(a: Seq<bool>, v: Seq<bool>)
    requires
        v.len() == a.len(),
        convolve(a, v) == unit(a.len()),
    ensures
        has_cyclic_inverse(a),
        cyclic_inverse(a) == v,
{
    lemma_cyclic_inverse_unique(a, v, cyclic_inverse(a));
}

/// The inverse of an invertible vector has the length of the vector and
/// multiplies it to 1 from both sides; it is invertible itself, and its
/// inverse is the vector.
pub proof fn lemma_cyclic_inverse_facts(a: Seq<bool>)
    requires
        has_cyclic_inverse(a),
    ensures
        cyclic_inverse(a).len() == a.len(),
        convolve(a, cyclic_inverse(a)) == unit(a.len()),
        convolve(cyclic_inverse(a), a) == unit(a.len()),
        has_cyclic_inverse(cyclic_inverse(a)),
        cyclic_inverse(cyclic_inverse(a)) == a,
{
    let v = cyclic_inverse(a);
    lemma_convolve_commutative(a, v);
    lemma_cyclic_inverse_is(v, a);
}

/// The product of two invertible vectors is invertible.
pub proof fn lemma_product_has_inverse(a: Seq<bool>, b: Seq<bool>)
    requires
        a.len() == b.len(),
        has_cyclic_inverse(a),
        has_cyclic_inverse(b),
    ensures
        has_cyclic_inverse(convolve(a, b)),
{
    let p = a.len();
    let x = cyclic_inverse(a);
    let y = cyclic_inverse(b);
    lemma_cyclic_inverse_facts(a);
    lemma_cyclic_inverse_facts(b);
    // (a b) (y x) = a (b y) x = a x = 1
    let ab = convolve(a, b);
    let yx = convolve(y, x);
    lemma_convolve_associative(ab, y, x);
    lemma_convolve_associative(a, b, y);
    lemma_convolve_unit(a);
    assert(convolve(ab, yx) == unit(p));
}

/// An invertible factor can be cancelled.
pub proof fn lemma_convolve_cancel(a: Seq<bool>, x: Seq<bool>, y: Seq<bool>)
    requires
        x.len() == a.len(),
        y.len() == a.len(),
        has_cyclic_inverse(a),
        convolve(a, x) == convolve(a, y),
    ensures
        x == y,
{
    let v = cyclic_inverse(a);
    lemma_cyclic_inverse_facts(a);
    // x = (v a) x = v (a x) = v (a y) = (v a) y = y
    lemma_convolve_associative(v, a, x);
    lemma_convolve_associative(v, a, y);
    lemma_convolve_unit(x);
    lemma_convolve_unit(y);
}

/// The circulant matrix of a vector, where it is invertible, times the
/// circulant matrix of the inverse of the vector modulo `x^p + 1` is the
/// identity: inverting the matrix and inverting the polynomial lead to the
/// same inverse.
pub proof fn law_circulant_of_inverse(a: Seq<bool>)
    requires
        is_invertible(circ(a)),
    ensures
        has_cyclic_inverse(a),
        product(circ(a), circ(cyclic_inverse(a))) == identity(a.len()),
        inverse(circ(a)) == Some(circ(cyclic_inverse(a))),
{
    lemma_cyclic_inverse_iff_invertible(a);
    lemma_cyclic_inverse_facts(a);
    lemma_circulant_of_inverse(a, cyclic_inverse(a));
    lemma_inverse_is(circ(a), circ(cyclic_inverse(a)));
}

/// The coefficients of `a` as a function of the degree.
pub open spec fn coefficient(a: Seq<bool>) -> spec_fn(int) -> bool {
    |i: int| a[i]
}

/// The value of the polynomial `a` at 1: whether its weight is odd.
pub open spec fn parity(a: Seq<bool>) -> bool {
    xor_sum(coefficient(a), a.len() as int)
}

/// The terms `a[i] * b[k - i]` of all coefficients of a cyclic convolution.
pub open spec fn conv_terms(a: Seq<bool>, b: Seq<bool>) -> spec_fn(int, int) -> bool {
    |i: int, k: int| a[i] && b[(k - i) % (a.len() as int)]
}

/// The value at 1 of a product is the product of the values at 1.
pub proof fn lemma_convolve_parity(a: Seq<bool>, b: Seq<bool>)
    requires
        a.len() == b.len(),
    ensures
        parity(convolve(a, b)) == (parity(a) && parity(b)),
{
    let p = a.len() as int;
    if p > 0 {
        let g = conv_terms(a, b);
        let rows = inner_sums(g, p);
        let cols = outer_sums(g, p);
        lemma_xor_sum_exchange(g, p, p);
        // summed over k first, the terms with a[i] give a[i] times the value of b at 1
        assert forall|i: int| 0 <= i < p implies #[trigger] rows(i) == (parity(b) && coefficient(
            a,
        )(i)) by {
            let turn = rotated(coefficient(b), p, -i);
            let line = |k: int| g(i, k);
            assert forall|k: int| 0 <= k < p implies #[trigger] line(k) == (a[i] && turn(k)) by {
                assert((k + (-i)) % p == (k - i) % p);
                lemma_mod_range(k - i, p);
            }
            lemma_xor_sum_scale(a[i], turn, line, p);
            lemma_xor_sum_rotate(coefficient(b), p, -i);
        }
        lemma_xor_sum_scale(parity(b), coefficient(a), rows, p);
        // summed over i first, they give the coefficients of the product
        assert forall|k: int| 0 <= k < p implies #[trigger] cols(k) == coefficient(
            convolve(a, b),
        )(k) by {
            lemma_xor_sum_ext(|i: int| g(i, k), conv_term(a, b, k), p);
        }
        lemma_xor_sum_ext(cols, coefficient(convolve(a, b)), p);
    }
}

/// A remainder lies between zero and the modulus.
pub proof fn lemma_mod_range(x: int, p: int)
    requires
        p > 0,
    ensures
        0 <= x % p < p,
{
    vstd::arithmetic::div_mod::lemma_mod_bound(x, p);
}

/// A vector of one bit or more with an inverse modulo `x^p + 1` has odd
/// weight: `x + 1` divides `x^p + 1`, and with it every vector of even
/// weight has a common factor.
pub proof fn lemma_inverse_needs_odd_parity(a: Seq<bool>)
    requires
        a.len() >= 1,
        has_cyclic_inverse(a),
    ensures
        parity(a),
{
    let p = a.len();
    let v = cyclic_inverse(a);
    lemma_convolve_parity(a, v);
    lemma_xor_sum_single(coefficient(unit(p)), p as int, 0);
}

/// Changing one bit changes the value at 1.
pub proof fn lemma_flip_changes_parity(a: Seq<bool>, j: int)
    requires
        0 <= j < a.len(),
    ensures
        parity(a.update(j, !a[j])) == !parity(a),
{
    lemma_xor_sum_one_point(
        coefficient(a),
        coefficient(a.update(j, !a[j])),
        a.len() as int,
        j,
    );
}

/// A vector with an inverse loses it when one of its bits is changed.
pub proof fn lemma_flip_loses_inverse(a: Seq<bool>, j: int)
    requires
        0 <= j < a.len(),
        has_cyclic_inverse(a),
    ensures
        !has_cyclic_inverse(a.update(j, !a[j])),
{
    lemma_inverse_needs_odd_parity(a);
    lemma_flip_changes_parity(a, j);
    if has_cyclic_inverse(a.update(j, !a[j])) {
        lemma_inverse_needs_odd_parity(a.update(j, !a[j]));
    }
}

} // verus!
