//! Matrices over GF(2) as mathematical values, and the algebra that the
//! executable matrix code is specified against.

use crate::bits::{
    inner_sums, lemma_xor_sum_exchange, lemma_xor_sum_ext, lemma_xor_sum_scale,
    lemma_xor_sum_single, lemma_xor_sum_split, lemma_xor_sum_zero, outer_sums, shifted, weight,
    xor_sum,
};
use vstd::prelude::*;

verus! {

/// A rectangular grid of bits: `rows.len()` rows, each of `width` entries.
#[verifier::ext_equal]
pub struct Grid {
    pub width: nat,
    pub rows: Seq<Seq<bool>>,
}

impl Grid {
    /// Number of rows.
    pub open spec fn height(self) -> nat {
        self.rows.len()
    }

    /// Every row has exactly `width` entries.
    pub open spec fn wf(self) -> bool {
        forall|i: int| 0 <= i < self.rows.len() ==> (#[trigger] self.rows[i]).len() == self.width
    }

    /// The entry in row `i`, column `j`.
    pub open spec fn at(self, i: int, j: int) -> bool {
        self.rows[i][j]
    }

    /// Whether the grid is well formed with `h` rows and `w` columns.
    pub open spec fn has_shape(self, h: nat, w: nat) -> bool {
        self.wf() && self.height() == h && self.width == w
    }

    /// The `h` by `w` grid whose entry at `(i, j)` is `f(i, j)`.
    pub open spec fn build(h: nat, w: nat, f: spec_fn(int, int) -> bool) -> Grid {
        Grid { width: w, rows: Seq::new(h, |i: int| Seq::new(w, |j: int| f(i, j))) }
    }

    /// Whether the grid is well formed with as many rows as columns.
    pub open spec fn is_square(self) -> bool {
        self.wf() && self.height() == self.width
    }
}

/// The `n` by `n` identity.
pub open spec fn identity(n: nat) -> Grid {
    Grid::build(n, n, |i: int, j: int| i == j)
}

/// The `h` by `w` grid of zeros.
pub open spec fn zero(h: nat, w: nat) -> Grid {
    Grid::build(h, w, |i: int, j: int| false)
}

/// The terms of the dot product of row `i` of `a` with column `j` of `b`.
pub open spec fn dot_term(a: Grid, b: Grid, i: int, j: int) -> spec_fn(int) -> bool {
    |k: int| a.at(i, k) && b.at(k, j)
}

/// Matrix product over GF(2): entries are dot products modulo 2.
pub open spec fn product(a: Grid, b: Grid) -> Grid {
    Grid::build(
        a.height(),
        b.width,
        |i: int, j: int| xor_sum(dot_term(a, b, i, j), a.width as int),
    )
}

/// Entrywise sum over GF(2).
pub open spec fn sum(a: Grid, b: Grid) -> Grid {
    Grid::build(a.height(), a.width, |i: int, j: int| a.at(i, j) != b.at(i, j))
}

/// The grid with rows and columns exchanged.
pub open spec fn transpose(a: Grid) -> Grid {
    Grid::build(a.width, a.height(), |i: int, j: int| a.at(j, i))
}

/// `a` with the columns of `b` appended on the right.
pub open spec fn hcat(a: Grid, b: Grid) -> Grid {
    Grid::build(
        a.height(),
        a.width + b.width,
        |i: int, j: int|
            if j < a.width {
                a.at(i, j)
            } else {
                b.at(i, j - a.width)
            },
    )
}

/// `a` with the rows of `b` appended below.
pub open spec fn vcat(a: Grid, b: Grid) -> Grid {
    Grid { width: a.width, rows: a.rows + b.rows }
}

/// The first `h` rows and `w` columns of `a`.
pub open spec fn top_left(a: Grid, h: nat, w: nat) -> Grid {
    Grid::build(h, w, |i: int, j: int| a.at(i, j))
}

/// The grid made of the columns of `a` that `indices` lists, in that order.
pub open spec fn selected_columns(a: Grid, indices: Seq<int>) -> Grid {
    Grid::build(a.height(), indices.len(), |i: int, c: int| a.at(i, indices[c]))
}

/// Column `j` of `a`.
pub open spec fn column(a: Grid, j: int) -> Seq<bool> {
    Seq::new(a.height(), |i: int| a.at(i, j))
}

/// The one-row grid that holds `s`.
pub open spec fn row_grid(s: Seq<bool>) -> Grid {
    Grid { width: s.len(), rows: seq![s] }
}

/// The first `w` entries of `row`, with zeros where `row` has fewer.
pub open spec fn padded(row: Seq<bool>, w: nat) -> Seq<bool> {
    Seq::new(w, |j: int| j < row.len() && row[j])
}

/// `s` moved `shift` places to the right, cyclically.
pub open spec fn rotate_right(s: Seq<bool>, shift: int) -> Seq<bool> {
    Seq::new(s.len(), |j: int| s[(j - shift) % (s.len() as int)])
}

/// The `h` by `w` grid whose row `i` is the first `w` entries of `row`
/// moved `i * shift` places to the right, cyclically.
pub open spec fn circulant(row: Seq<bool>, h: nat, w: nat, shift: int) -> Grid {
    Grid::build(h, w, |i: int, j: int| row[(j - i * shift) % (w as int)])
}

/// The square circulant grid with first row `row` and shift 1.
pub open spec fn circ(row: Seq<bool>) -> Grid {
    circulant(row, row.len(), row.len(), 1)
}

/// Whether every entry is zero.
pub open spec fn is_zero(a: Grid) -> bool {
    forall|i: int, j: int| 0 <= i < a.height() && 0 <= j < a.width ==> !#[trigger] a.at(i, j)
}

/// Number of set entries in the first `n` rows.
pub open spec fn ones_in_rows(a: Grid, n: int) -> nat
    decreases n,
{
    if n <= 0 {
        0
    } else {
        ones_in_rows(a, n - 1) + weight(a.rows[n - 1])
    }
}

/// Number of set entries of the grid.
pub open spec fn grid_weight(a: Grid) -> nat {
    ones_in_rows(a, a.height() as int)
}

/// `x` is a two-sided inverse of `m`.
pub open spec fn is_inverse_pair(m: Grid, x: Grid) -> bool {
    &&& m.is_square()
    &&& x.has_shape(m.height(), m.width)
    &&& product(m, x) == identity(m.height())
    &&& product(x, m) == identity(m.height())
}

/// Whether `m` has a two-sided inverse.
pub open spec fn is_invertible(m: Grid) -> bool {
    exists|x: Grid| is_inverse_pair(m, x)
}

/// The inverse of `m`, where there is one.
pub open spec fn inverse(m: Grid) -> Option<Grid> {
    if is_invertible(m) {
        Some(choose|x: Grid| is_inverse_pair(m, x))
    } else {
        None
    }
}

/// Grids of the same shape with the same entries are equal.
pub proof fn lemma_grid_ext(a: Grid, b: Grid)
    requires
        a.wf(),
        b.wf(),
        a.height() == b.height(),
        a.width == b.width,
        forall|i: int, j: int|
            0 <= i < a.height() && 0 <= j < a.width ==> #[trigger] a.at(i, j) == b.at(i, j),
    ensures
        a == b,
{
    assert forall|i: int| 0 <= i < a.rows.len() implies #[trigger] a.rows[i] =~= b.rows[i] by {
        assert forall|j: int| 0 <= j < a.rows[i].len() implies a.rows[i][j] == b.rows[i][j] by {
            assert(a.at(i, j) == b.at(i, j));
        }
    }
    assert(a.rows =~= b.rows);
}

/// Multiplying by the identity on the right changes nothing.
pub proof fn lemma_product_identity_right(a: Grid)
    requires
        a.wf(),
    ensures
        product(a, identity(a.width)) == a,
{
    let p = product(a, identity(a.width));
    assert forall|i: int, j: int| 0 <= i < a.height() && 0 <= j < a.width implies #[trigger] p.at(
        i,
        j,
    ) == a.at(i, j) by {
        let t = dot_term(a, identity(a.width), i, j);
        assert forall|k: int| 0 <= k < a.width && k != j implies !#[trigger] t(k) by {}
        lemma_xor_sum_single(t, a.width as int, j);
    }
    lemma_grid_ext(p, a);
}

/// Multiplying by the identity on the left changes nothing.
pub proof fn lemma_product_identity_left(a: Grid)
    requires
        a.wf(),
    ensures
        product(identity(a.height()), a) == a,
{
    let id = identity(a.height());
    let p = product(id, a);
    assert forall|i: int, j: int| 0 <= i < a.height() && 0 <= j < a.width implies #[trigger] p.at(
        i,
        j,
    ) == a.at(i, j) by {
        let t = dot_term(id, a, i, j);
        assert forall|k: int| 0 <= k < a.height() && k != i implies !#[trigger] t(k) by {}
        lemma_xor_sum_single(t, a.height() as int, i);
    }
    lemma_grid_ext(p, a);
}

/// The terms `a[i][k] && b[k][l] && c[l][j]` of a triple product.
pub open spec fn triple_term(a: Grid, b: Grid, c: Grid, i: int, j: int) -> spec_fn(
    int,
    int,
) -> bool {
    |k: int, l: int| a.at(i, k) && b.at(k, l) && c.at(l, j)
}

/// Matrix multiplication is associative.
pub proof fn lemma_product_assoc(a: Grid, b: Grid, c: Grid)
    requires
        a.wf(),
        b.wf(),
        c.wf(),
        a.width == b.height(),
        b.width == c.height(),
    ensures
        product(product(a, b), c) == product(a, product(b, c)),
{
    let ab = product(a, b);
    let bc = product(b, c);
    let l = product(ab, c);
    let r = product(a, bc);
    let n = a.width as int;
    let m = b.width as int;
    assert forall|i: int, j: int| 0 <= i < a.height() && 0 <= j < c.width implies #[trigger] l.at(
        i,
        j,
    ) == r.at(i, j) by {
        let g = triple_term(a, b, c, i, j);
        // right: sum over k of a[i][k] && bc[k][j]
        let rt = dot_term(a, bc, i, j);
        assert forall|k: int| 0 <= k < n implies #[trigger] rt(k) == inner_sums(g, m)(k) by {
            let inner = |l: int| g(k, l);
            let bt = dot_term(b, c, k, j);
            assert forall|q: int| 0 <= q < m implies #[trigger] inner(q) == (a.at(i, k) && bt(
                q,
            )) by {}
            lemma_xor_sum_scale(a.at(i, k), bt, inner, m);
        }
        lemma_xor_sum_ext(rt, inner_sums(g, m), n);
        // left: sum over l of ab[i][l] && c[l][j]
        let lt = dot_term(ab, c, i, j);
        assert forall|q: int| 0 <= q < m implies #[trigger] lt(q) == outer_sums(g, n)(q) by {
            let outer = |k: int| g(k, q);
            let at = dot_term(a, b, i, q);
            assert forall|k: int| 0 <= k < n implies #[trigger] outer(k) == (c.at(q, j) && at(
                k,
            )) by {}
            lemma_xor_sum_scale(c.at(q, j), at, outer, n);
        }
        lemma_xor_sum_ext(lt, outer_sums(g, n), m);
        lemma_xor_sum_exchange(g, n, m);
    }
    lemma_grid_ext(l, r);
}

/// Inverses are unique.
pub proof fn lemma_inverse_unique(m: Grid, x: Grid, y: Grid)
    requires
        is_inverse_pair(m, x),
        is_inverse_pair(m, y),
    ensures
        x == y,
{
    // x = x (m y) = (x m) y = y
    lemma_product_assoc(x, m, y);
    lemma_product_identity_right(x);
    lemma_product_identity_left(y);
}

/// A one-sided inverse on each side is the inverse.
pub proof fn lemma_inverse_is(m: Grid, x: Grid)
    requires
        is_inverse_pair(m, x),
    ensures
        is_invertible(m),
        inverse(m) == Some(x),
{
    let y = choose|y: Grid| is_inverse_pair(m, y);
    lemma_inverse_unique(m, x, y);
}

/// The inverse of the inverse of an invertible matrix is the matrix itself,
/// and a matrix times its inverse is the identity.
pub proof fn law_inverse_involution(m: Grid)
    requires
        is_invertible(m),
    ensures
        inverse(m) is Some,
        product(m, inverse(m).unwrap()) == identity(m.height()),
        product(inverse(m).unwrap(), m) == identity(m.height()),
        inverse(inverse(m).unwrap()) == Some(m),
{
    let x = inverse(m).unwrap();
    assert(is_inverse_pair(m, x));
    assert(is_inverse_pair(x, m));
    lemma_inverse_is(x, m);
}

/// The identity is its own inverse.
pub proof fn lemma_identity_inverse(n: nat)
    ensures
        is_inverse_pair(identity(n), identity(n)),
{
    lemma_product_identity_left(identity(n));
}

/// Transposing twice gives the matrix back.
pub proof fn lemma_transpose_involution(a: Grid)
    requires
        a.wf(),
    ensures
        transpose(transpose(a)) == a,
{
    lemma_grid_ext(transpose(transpose(a)), a);
}

/// The identity is symmetric.
pub proof fn lemma_transpose_identity(n: nat)
    ensures
        transpose(identity(n)) == identity(n),
{
    lemma_grid_ext(transpose(identity(n)), identity(n));
}

/// The transpose of a product is the product of the transposes in reverse
/// order.
pub proof fn lemma_transpose_product(a: Grid, b: Grid)
    requires
        a.wf(),
        b.wf(),
        a.width == b.height(),
    ensures
        transpose(product(a, b)) == product(transpose(b), transpose(a)),
{
    let l = transpose(product(a, b));
    let r = product(transpose(b), transpose(a));
    assert forall|i: int, j: int| 0 <= i < b.width && 0 <= j < a.height() implies #[trigger] l.at(
        i,
        j,
    ) == r.at(i, j) by {
        lemma_xor_sum_ext(
            dot_term(a, b, j, i),
            dot_term(transpose(b), transpose(a), i, j),
            a.width as int,
        );
    }
    lemma_grid_ext(l, r);
}

/// Transposing turns blocks side by side into blocks one above the other.
pub proof fn lemma_transpose_hcat(a: Grid, b: Grid)
    requires
        a.wf(),
        b.wf(),
        a.height() == b.height(),
    ensures
        transpose(hcat(a, b)) == vcat(transpose(a), transpose(b)),
{
    let l = transpose(hcat(a, b));
    let r = vcat(transpose(a), transpose(b));
    assert forall|i: int| 0 <= i < r.rows.len() implies (#[trigger] r.rows[i]).len()
        == r.width by {
        if i < a.width {
            assert(r.rows[i] == transpose(a).rows[i]);
        } else {
            assert(r.rows[i] == transpose(b).rows[i - a.width]);
        }
    }
    assert forall|i: int, j: int|
        0 <= i < a.width + b.width && 0 <= j < a.height() implies #[trigger] l.at(i, j) == r.at(
        i,
        j,
    ) by {
        if i < a.width {
            assert(r.rows[i] == transpose(a).rows[i]);
        } else {
            assert(r.rows[i] == transpose(b).rows[i - a.width]);
        }
    }
    lemma_grid_ext(l, r);
}

/// A product of blocks: `[a | b] * [c ; d] == a * c + b * d`.
pub proof fn lemma_block_product(a: Grid, b: Grid, c: Grid, d: Grid)
    requires
        a.wf(),
        b.wf(),
        c.wf(),
        d.wf(),
        a.height() == b.height(),
        c.width == d.width,
        a.width == c.height(),
        b.width == d.height(),
    ensures
        product(hcat(a, b), vcat(c, d)) == sum(product(a, c), product(b, d)),
{
    let ab = hcat(a, b);
    let cd = vcat(c, d);
    let l = product(ab, cd);
    let r = sum(product(a, c), product(b, d));
    assert forall|i: int, j: int| 0 <= i < a.height() && 0 <= j < c.width implies #[trigger] l.at(
        i,
        j,
    ) == r.at(i, j) by {
        let t = dot_term(ab, cd, i, j);
        lemma_xor_sum_split(t, a.width as int, b.width as int);
        assert forall|k: int| 0 <= k < a.width implies #[trigger] t(k) == dot_term(a, c, i, j)(
            k,
        ) by {
            assert(cd.rows[k] == c.rows[k]);
        }
        lemma_xor_sum_ext(t, dot_term(a, c, i, j), a.width as int);
        assert forall|k: int| 0 <= k < b.width implies #[trigger] shifted(t, a.width as int)(k)
            == dot_term(b, d, i, j)(k) by {
            assert(cd.rows[a.width + k] == d.rows[k]);
        }
        lemma_xor_sum_ext(shifted(t, a.width as int), dot_term(b, d, i, j), b.width as int);
    }
    lemma_grid_ext(l, r);
}

/// Over GF(2) every matrix is its own negative.
pub proof fn lemma_sum_self(a: Grid)
    requires
        a.wf(),
    ensures
        sum(a, a) == zero(a.height(), a.width),
{
    lemma_grid_ext(sum(a, a), zero(a.height(), a.width));
}

/// A zero matrix times anything is zero.
pub proof fn lemma_zero_product(h: nat, b: Grid)
    requires
        b.wf(),
    ensures
        product(zero(h, b.height()), b) == zero(h, b.width),
{
    let z = zero(h, b.height());
    let p = product(z, b);
    assert forall|i: int, j: int| 0 <= i < h && 0 <= j < b.width implies #[trigger] p.at(i, j)
        == false by {
        let t = dot_term(z, b, i, j);
        assert forall|k: int| 0 <= k < b.height() implies !#[trigger] t(k) by {}
        lemma_xor_sum_zero(t, b.height() as int);
    }
    lemma_grid_ext(p, zero(h, b.width));
}

/// A circulant grid reads only the first `w` entries of its row: cutting
/// the row to `w` entries, or a row of at least `w` entries as it is, give
/// the same grid.
pub proof fn lemma_circulant_padded(row: Seq<bool>, h: nat, w: nat, shift: int)
    requires
        w <= row.len(),
    ensures
        circulant(padded(row, w), h, w, shift) == circulant(row, h, w, shift),
{
    let a = circulant(padded(row, w), h, w, shift);
    let b = circulant(row, h, w, shift);
    assert forall|i: int, j: int| 0 <= i < h && 0 <= j < w implies #[trigger] a.at(i, j) == b.at(
        i,
        j,
    ) by {
        vstd::arithmetic::div_mod::lemma_mod_bound(j - i * shift, w as int);
    }
    lemma_grid_ext(a, b);
}

} // verus!
