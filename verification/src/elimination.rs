//! Row operations on bit matrices and what they do to matrix products: the
//! algebra behind Gauss-Jordan inversion over GF(2).

use crate::binary_matrix_operations::{grid_of, rect};
use crate::bits::{
    lemma_xor_sum_add, lemma_xor_sum_ext, lemma_xor_sum_two_point, lemma_xor_sum_two_terms,
    lemma_xor_sum_zero,
};
use crate::grid::{
    dot_term, identity, is_inverse_pair, is_invertible, lemma_grid_ext,
    lemma_product_assoc, lemma_product_identity_left, product, zero, Grid,
};
use vstd::prelude::*;

verus! {

/// Entrywise XOR of two bit vectors of the same length.
pub open spec fn xor_seq(a: Seq<bool>, b: Seq<bool>) -> Seq<bool> {
    Seq::new(a.len(), |k: int| a[k] != b[k])
}

/// `g` with rows `a` and `b` exchanged.
pub open spec fn row_swapped(g: Grid, a: int, b: int) -> Grid {
    Grid { width: g.width, rows: g.rows.update(a, g.rows[b]).update(b, g.rows[a]) }
}

/// `g` with row `src` added to row `dst`.
pub open spec fn row_added(g: Grid, src: int, dst: int) -> Grid {
    Grid { width: g.width, rows: g.rows.update(dst, xor_seq(g.rows[dst], g.rows[src])) }
}

/// `g` with columns `a` and `b` exchanged.
pub open spec fn col_swapped(g: Grid, a: int, b: int) -> Grid {
    Grid::build(
        g.height(),
        g.width,
        |i: int, j: int|
            g.at(
                i,
                if j == a {
                    b
                } else if j == b {
                    a
                } else {
                    j
                },
            ),
    )
}

/// `g` with column `dst` added to column `src`: what multiplying on the
/// right by the matrix of "add row `src` to row `dst`" does.
pub open spec fn col_added(g: Grid, src: int, dst: int) -> Grid {
    Grid::build(
        g.height(),
        g.width,
        |i: int, j: int|
            if j == src {
                g.at(i, src) != g.at(i, dst)
            } else {
                g.at(i, j)
            },
    )
}

/// Exchanging two rows of the left factor exchanges the rows of the product.
pub proof fn lemma_row_swap_product(r: Grid, m: Grid, a: int, b: int)
    requires
        r.wf(),
        m.wf(),
        r.width == m.height(),
        0 <= a < r.height(),
        0 <= b < r.height(),
    ensures
        product(row_swapped(r, a, b), m) == row_swapped(product(r, m), a, b),
{
    let r2 = row_swapped(r, a, b);
    let lhs = product(r2, m);
    let rhs = row_swapped(product(r, m), a, b);
    assert forall|i: int, j: int| 0 <= i < r.height() && 0 <= j < m.width implies #[trigger] lhs.at(
        i,
        j,
    ) == rhs.at(i, j) by {
        let src = if i == b {
            a
        } else if i == a {
            b
        } else {
            i
        };
        assert(r2.rows[i] == r.rows[src]);
        assert(rhs.rows[i] == product(r, m).rows[src]);
        lemma_xor_sum_ext(dot_term(r2, m, i, j), dot_term(r, m, src, j), r.width as int);
    }
    lemma_grid_ext(lhs, rhs);
}

/// Adding a row to another in the left factor does the same to the product.
pub proof fn lemma_row_add_product(r: Grid, m: Grid, src: int, dst: int)
    requires
        r.wf(),
        m.wf(),
        r.width == m.height(),
        0 <= src < r.height(),
        0 <= dst < r.height(),
    ensures
        product(row_added(r, src, dst), m) == row_added(product(r, m), src, dst),
{
    let r2 = row_added(r, src, dst);
    let p = product(r, m);
    let lhs = product(r2, m);
    let rhs = row_added(p, src, dst);
    assert forall|i: int, j: int| 0 <= i < r.height() && 0 <= j < m.width implies #[trigger] lhs.at(
        i,
        j,
    ) == rhs.at(i, j) by {
        if i == dst {
            let f = dot_term(r, m, dst, j);
            let g = dot_term(r, m, src, j);
            let h = dot_term(r2, m, dst, j);
            assert forall|k: int| 0 <= k < r.width implies #[trigger] h(k) == (f(k) != g(k)) by {}
            lemma_xor_sum_add(f, g, h, r.width as int);
            assert(rhs.at(i, j) == (p.at(dst, j) != p.at(src, j)));
        } else {
            assert(r2.rows[i] == r.rows[i]);
            lemma_xor_sum_ext(dot_term(r2, m, i, j), dot_term(r, m, i, j), r.width as int);
        }
    }
    lemma_grid_ext(lhs, rhs);
}

/// Exchanging two columns of the left factor and the same two rows of the
/// right factor leaves the product alone.
pub proof fn lemma_swap_cancels(f: Grid, l: Grid, a: int, b: int)
    requires
        f.wf(),
        l.wf(),
        f.width == l.height(),
        0 <= a < f.width,
        0 <= b < f.width,
        a != b,
    ensures
        product(col_swapped(f, a, b), row_swapped(l, a, b)) == product(f, l),
{
    let f2 = col_swapped(f, a, b);
    let l2 = row_swapped(l, a, b);
    let lhs = product(f2, l2);
    let rhs = product(f, l);
    assert forall|i: int, j: int| 0 <= i < f.height() && 0 <= j < l.width implies #[trigger] lhs.at(
        i,
        j,
    ) == rhs.at(i, j) by {
        let t = dot_term(f, l, i, j);
        let t2 = dot_term(f2, l2, i, j);
        assert(t2(a) == t(b));
        assert(t2(b) == t(a));
        assert forall|k: int| 0 <= k < f.width && k != a && k != b implies #[trigger] t2(k) == t(
            k,
        ) by {
            assert(l2.rows[k] == l.rows[k]);
        }
        lemma_xor_sum_two_point(t2, t, f.width as int, a, b);
    }
    lemma_grid_ext(lhs, rhs);
}

/// Adding column `dst` to column `src` in the left factor and row `src` to
/// row `dst` in the right factor leaves the product alone.
pub proof fn lemma_add_cancels(f: Grid, l: Grid, src: int, dst: int)
    requires
        f.wf(),
        l.wf(),
        f.width == l.height(),
        0 <= src < f.width,
        0 <= dst < f.width,
        src != dst,
    ensures
        product(col_added(f, src, dst), row_added(l, src, dst)) == product(f, l),
{
    let f2 = col_added(f, src, dst);
    let l2 = row_added(l, src, dst);
    let lhs = product(f2, l2);
    let rhs = product(f, l);
    assert forall|i: int, j: int| 0 <= i < f.height() && 0 <= j < l.width implies #[trigger] lhs.at(
        i,
        j,
    ) == rhs.at(i, j) by {
        let t = dot_term(f, l, i, j);
        let t2 = dot_term(f2, l2, i, j);
        assert(l2.rows[src] == l.rows[src]);
        assert(t2(src) == ((f.at(i, src) != f.at(i, dst)) && l.at(src, j)));
        assert(t2(dst) == (f.at(i, dst) && (l.at(dst, j) != l.at(src, j))));
        assert forall|k: int| 0 <= k < f.width && k != src && k != dst implies #[trigger] t2(k)
            == t(k) by {
            assert(l2.rows[k] == l.rows[k]);
        }
        lemma_xor_sum_two_point(t2, t, f.width as int, src, dst);
    }
    lemma_grid_ext(lhs, rhs);
}

/// Anything times a zero matrix is zero.
pub proof fn lemma_product_zero(a: Grid, w: nat)
    requires
        a.wf(),
    ensures
        product(a, zero(a.width, w)) == zero(a.height(), w),
{
    let z = zero(a.width, w);
    let p = product(a, z);
    assert forall|i: int, j: int| 0 <= i < a.height() && 0 <= j < w implies #[trigger] p.at(i, j)
        == false by {
        let t = dot_term(a, z, i, j);
        assert forall|k: int| 0 <= k < a.width implies !#[trigger] t(k) by {}
        lemma_xor_sum_zero(t, a.width as int);
    }
    lemma_grid_ext(p, zero(a.height(), w));
}

/// The column vector that a reduced matrix without a pivot in column `i`
/// sends to zero.
pub open spec fn kernel_vector(l: Grid, i: int) -> Grid {
    Grid::build(
        l.height(),
        1,
        |r: int, c: int|
            if r < i {
                l.at(r, i)
            } else {
                r == i
            },
    )
}

/// A matrix whose row-reduced form has no pivot in column `i` has no inverse.
///
/// `l` is the reduced form of `m` (`f * l == m`): its first `i` columns are
/// those of the identity, and column `i` vanishes from row `i` on.
pub proof fn lemma_no_pivot_singular(m: Grid, f: Grid, l: Grid, i: int)
    requires
        m.is_square(),
        f.has_shape(m.height(), m.height()),
        l.has_shape(m.height(), m.height()),
        product(f, l) == m,
        0 <= i < m.height(),
        forall|r: int, c: int|
            0 <= r < m.height() && 0 <= c < i ==> #[trigger] l.at(r, c) == (r == c),
        forall|r: int| i <= r < m.height() ==> !#[trigger] l.at(r, i),
    ensures
        !is_invertible(m),
{
    let n = m.height();
    let v = kernel_vector(l, i);
    let lv = product(l, v);
    assert forall|r: int, c: int| 0 <= r < n && 0 <= c < 1 implies #[trigger] lv.at(r, c)
        == false by {
        let t = dot_term(l, v, r, c);
        if r < i {
            assert forall|k: int| 0 <= k < n && k != r && k != i implies !#[trigger] t(k) by {
                if k < i {
                    assert(l.at(r, k) == (r == k));
                }
            }
            assert(l.at(r, r));
            lemma_xor_sum_two_terms(t, n as int, r, i);
        } else {
            assert forall|k: int| 0 <= k < n implies !#[trigger] t(k) by {
                if k < i {
                    assert(l.at(r, k) == (r == k));
                } else if k == i {
                    assert(!l.at(r, i));
                }
            }
            lemma_xor_sum_zero(t, n as int);
        }
    }
    lemma_grid_ext(lv, zero(n, 1));
    // m v = f (l v) = 0
    lemma_product_assoc(f, l, v);
    lemma_product_zero(f, 1);
    assert(product(m, v) == zero(n, 1));
    if is_invertible(m) {
        let x = choose|x: Grid| is_inverse_pair(m, x);
        // v = (x m) v = x (m v) = 0
        lemma_product_assoc(x, m, v);
        lemma_product_identity_left(v);
        lemma_product_zero(x, 1);
        assert(v == zero(n, 1));
        assert(v.at(i, 0));
        assert(!zero(n, 1).at(i, 0));
    }
}

/// Exchanges rows `a` and `b` of `rows`.
pub(crate) fn swap_rows(rows: &mut Vec<Vec<bool>>, a: usize, b: usize, Ghost(w): Ghost<nat>)
    requires
        a < old(rows).len(),
        b < old(rows).len(),
        rect(old(rows)@, w),
    ensures
        final(rows).len() == old(rows).len(),
        rect(final(rows)@, w),
        grid_of(final(rows)@, w) == row_swapped(grid_of(old(rows)@, w), a as int, b as int),
{
    let row_a = rows[a].clone();
    let row_b = rows[b].clone();
    assert(row_a@ =~= rows[a as int]@);
    assert(row_b@ =~= rows[b as int]@);
    rows[a] = row_b;
    rows[b] = row_a;
    proof {
        let got = grid_of(rows@, w);
        let want = row_swapped(grid_of(old(rows)@, w), a as int, b as int);
        assert(got.rows =~= want.rows);
    }
}

/// Adds row `src` to row `dst` of `rows`, entry by entry over GF(2).
pub(crate) fn xor_row_into(rows: &mut Vec<Vec<bool>>, src: usize, dst: usize, Ghost(w): Ghost<nat>)
    requires
        src < old(rows).len(),
        dst < old(rows).len(),
        src != dst,
        rect(old(rows)@, w),
    ensures
        final(rows).len() == old(rows).len(),
        rect(final(rows)@, w),
        grid_of(final(rows)@, w) == row_added(grid_of(old(rows)@, w), src as int, dst as int),
{
    let n = rows[src].len();
    let mut k: usize = 0;
    while k < n
        invariant
            k <= n,
            n == w,
            src < rows.len(),
            dst < rows.len(),
            src != dst,
            rows.len() == old(rows).len(),
            rect(rows@, w),
            rect(old(rows)@, w),
            forall|r: int|
                0 <= r < rows.len() && r != dst ==> (#[trigger] rows[r])@ == old(rows)[r]@,
            forall|c: int|
                0 <= c < k ==> #[trigger] rows[dst as int]@[c] == (old(rows)[dst as int]@[c] != old(
                    rows,
                )[src as int]@[c]),
            forall|c: int|
                k <= c < n ==> #[trigger] rows[dst as int]@[c] == old(rows)[dst as int]@[c],
        decreases n - k,
    {
        let bit = rows[src][k];
        if bit {
            let cur = rows[dst][k];
            rows[dst][k] = !cur;
        }
        k = k + 1;
    }
    proof {
        let got = grid_of(rows@, w);
        let want = row_added(grid_of(old(rows)@, w), src as int, dst as int);
        assert forall|r: int| 0 <= r < rows.len() implies #[trigger] got.rows[r]
            == want.rows[r] by {
            if r == dst {
                assert(got.rows[r] =~= want.rows[r]);
            } else {
                assert(rows[r]@ == old(rows)[r]@);
            }
        }
        assert(got.rows =~= want.rows);
    }
}

} // verus!
