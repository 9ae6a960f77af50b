//! Dense bit matrices: builders, concatenation, GF(2) arithmetic.

use crate::bits::xor_sum;
use crate::elimination::{
    col_added, col_swapped, lemma_add_cancels, lemma_no_pivot_singular, lemma_row_add_product,
    lemma_row_swap_product, lemma_swap_cancels, row_added, row_swapped, swap_rows, xor_row_into,
};
use crate::grid::{
    circulant, column, dot_term, grid_weight, hcat, identity, inverse, is_inverse_pair,
    is_invertible, is_zero, lemma_circulant_padded, lemma_grid_ext, lemma_identity_inverse,
    lemma_inverse_is, lemma_product_identity_left, lemma_product_identity_right, ones_in_rows,
    padded, product, rotate_right, row_grid, selected_columns, sum, top_left, transpose, vcat,
    zero, Grid,
};
use vstd::arithmetic::div_mod::{
    lemma_add_mod_noop, lemma_mod_add_multiples_vanish, lemma_small_mod, lemma_sub_mod_noop,
};
use vstd::prelude::*;

verus! {

/// Why a matrix operation was refused.
#[derive(Debug, Clone, Copy, PartialEq, Eq, Structural)]
pub enum MatrixError {
    /// The operands' shapes do not fit the operation.
    DimensionMismatch,
    /// The result would have more columns or rows than a machine word counts.
    SizeOverflow,
}

impl MatrixError {
    /// A short description of the failure.
    pub fn message(&self) -> (s: &'static str)
        ensures
            s@ == match *self {
                MatrixError::DimensionMismatch => "The dimensions must match"@,
                MatrixError::SizeOverflow => "The matrix would be too large"@,
            },
    {
        match self {
            MatrixError::DimensionMismatch => "The dimensions must match",
            MatrixError::SizeOverflow => "The matrix would be too large",
        }
    }
}

/// The grid held by a vector of rows that all have `w` entries.
pub open spec fn grid_of(rows: Seq<Vec<bool>>, w: nat) -> Grid {
    Grid { width: w, rows: Seq::new(rows.len(), |i: int| rows[i]@) }
}

/// Every row has `w` entries.
pub open spec fn rect(rows: Seq<Vec<bool>>, w: nat) -> bool {
    forall|i: int| 0 <= i < rows.len() ==> (#[trigger] rows[i]).len() == w
}

/// Rows that hold `f` entry by entry hold the grid built from `f`.
pub proof fn lemma_grid_of_build(rows: Seq<Vec<bool>>, h: nat, w: nat, f: spec_fn(int, int) -> bool)
    requires
        rows.len() == h,
        rect(rows, w),
        forall|i: int, j: int| 0 <= i < h && 0 <= j < w ==> #[trigger] rows[i]@[j] == f(i, j),
    ensures
        grid_of(rows, w) == Grid::build(h, w, f),
{
    let a = grid_of(rows, w);
    let b = Grid::build(h, w, f);
    assert forall|i: int, j: int| 0 <= i < h && 0 <= j < w implies #[trigger] a.at(i, j) == b.at(
        i,
        j,
    ) by {
        assert(rows[i]@[j] == f(i, j));
    }
    lemma_grid_ext(a, b);
}

/// A dense matrix of bits with a fixed number of rows and columns.
#[derive(Debug, PartialEq, Eq)]
pub struct BitMatrix {
    rows: Vec<Vec<bool>>,
    ncols: usize,
}

impl View for BitMatrix {
    type V = Grid;

    closed spec fn view(&self) -> Grid {
        grid_of(self.rows@, self.ncols as nat)
    }
}

impl Clone for BitMatrix {
    fn clone(&self) -> (r: Self)
        ensures
            r@ == self@,
    {
        proof {
            use_type_invariant(self);
        }
        let mut rows: Vec<Vec<bool>> = Vec::new();
        let mut i: usize = 0;
        while i < self.rows.len()
            invariant
                i <= self.rows.len(),
                rows.len() == i,
                rect(self.rows@, self.ncols as nat),
                forall|r: int| 0 <= r < i ==> (#[trigger] rows[r])@ == self.rows[r]@,
            decreases self.rows.len() - i,
        {
            let row = self.rows[i].clone();
            assert(row@ =~= self.rows[i as int]@);
            rows.push(row);
            i = i + 1;
        }
        let r = BitMatrix { rows, ncols: self.ncols };
        assert(r@.rows =~= self@.rows);
        r
    }
}

impl BitMatrix {
    #[verifier::type_invariant]
    spec fn well_formed(&self) -> bool {
        rect(self.rows@, self.ncols as nat)
    }

    /// Wraps rows that all have `ncols` entries.
    pub(crate) fn from_parts(rows: Vec<Vec<bool>>, ncols: usize) -> (m: BitMatrix)
        requires
            rect(rows@, ncols as nat),
        ensures
            m@ == grid_of(rows@, ncols as nat),
            m@.wf(),
    {
        BitMatrix { rows, ncols }
    }

    /// The `nrows` by `ncols` matrix whose entries all equal `value`.
    pub fn from_element(nrows: usize, ncols: usize, value: bool) -> (m: BitMatrix)
        ensures
            m@ == Grid::build(nrows as nat, ncols as nat, |i: int, j: int| value),
    {
        let mut rows: Vec<Vec<bool>> = Vec::new();
        let mut i: usize = 0;
        while i < nrows
            invariant
                i <= nrows,
                rows.len() == i,
                rect(rows@, ncols as nat),
                forall|r: int, c: int|
                    0 <= r < i && 0 <= c < ncols ==> #[trigger] rows[r]@[c] == value,
            decreases nrows - i,
        {
            let row = vec![value; ncols];
            rows.push(row);
            i = i + 1;
        }
        proof {
            lemma_grid_of_build(rows@, nrows as nat, ncols as nat, |i: int, j: int| value);
        }
        BitMatrix { rows, ncols }
    }

    /// The matrix with `nrows` rows and `ncols` columns whose rows are the
    /// consecutive chunks of `data`; `None` unless `data` has exactly
    /// `nrows * ncols` entries.
    pub fn from_row_slice(nrows: usize, ncols: usize, data: &[bool]) -> (r: Option<BitMatrix>)
        ensures
            r is Some <==> data@.len() == nrows * ncols,
            r matches Some(m) ==> m@ == Grid::build(
                nrows as nat,
                ncols as nat,
                |i: int, j: int| data@[i * ncols + j],
            ),
    {
        let mut rows: Vec<Vec<bool>> = Vec::new();
        let mut i: usize = 0;
        let mut pos: usize = 0;
        let len = data.len();
        while i < nrows
            invariant
                i <= nrows,
                rows.len() == i,
                pos == i * ncols,
                pos <= len,
                len == data@.len(),
                rect(rows@, ncols as nat),
                forall|r: int, c: int|
                    0 <= r < i && 0 <= c < ncols ==> #[trigger] rows[r]@[c] == data@[r * ncols + c],
            decreases nrows - i,
        {
            if len - pos < ncols {
                proof {
                    assert(nrows * ncols >= (i + 1) * ncols) by (nonlinear_arith)
                        requires
                            i < nrows,
                    ;
                    assert((i + 1) * ncols == i * ncols + ncols) by (nonlinear_arith);
                }
                return None;
            }
            let mut row: Vec<bool> = Vec::new();
            let mut j: usize = 0;
            while j < ncols
                invariant
                    j <= ncols,
                    row.len() == j,
                    pos + ncols <= len,
                    len == data@.len(),
                    pos == i * ncols,
                    forall|c: int| 0 <= c < j ==> #[trigger] row[c] == data@[i * ncols + c],
                decreases ncols - j,
            {
                row.push(data[pos + j]);
                j = j + 1;
            }
            rows.push(row);
            proof {
                assert((i + 1) * ncols == i * ncols + ncols) by (nonlinear_arith);
            }
            pos = pos + ncols;
            i = i + 1;
        }
        if pos != len {
            return None;
        }
        proof {
            lemma_grid_of_build(
                rows@,
                nrows as nat,
                ncols as nat,
                |i: int, j: int| data@[i * ncols + j],
            );
        }
        Some(BitMatrix { rows, ncols })
    }

    /// The one-row matrix that holds `v`.
    pub fn from_row_vector(v: &Vec<bool>) -> (m: BitMatrix)
        ensures
            m@ == row_grid(v@),
    {
        let row = v.clone();
        assert(row@ =~= v@);
        let mut rows: Vec<Vec<bool>> = Vec::new();
        rows.push(row);
        let m = BitMatrix { rows, ncols: v.len() };
        assert(m@.rows =~= row_grid(v@).rows);
        m
    }

    /// Number of rows.
    pub fn nrows(&self) -> (n: usize)
        ensures
            n == self@.height(),
            self@.wf(),
    {
        proof {
            use_type_invariant(self);
        }
        self.rows.len()
    }

    /// Number of columns.
    pub fn ncols(&self) -> (n: usize)
        ensures
            n == self@.width,
            self@.wf(),
    {
        proof {
            use_type_invariant(self);
        }
        self.ncols
    }

    /// The entry in row `i`, column `j`.
    pub fn get(&self, i: usize, j: usize) -> (b: bool)
        requires
            i < self@.height(),
            j < self@.width,
        ensures
            b == self@.at(i as int, j as int),
    {
        proof {
            use_type_invariant(self);
        }
        self.rows[i][j]
    }

    /// Overwrites the entry in row `i`, column `j`.
    pub fn set(&mut self, i: usize, j: usize, value: bool)
        requires
            i < old(self)@.height(),
            j < old(self)@.width,
        ensures
            final(self)@.wf(),
            final(self)@.width == old(self)@.width,
            final(self)@.rows == old(self)@.rows.update(
                i as int,
                old(self)@.rows[i as int].update(j as int, value),
            ),
    {
        proof {
            use_type_invariant(&*self);
        }
        let mut rows: Vec<Vec<bool>> = Vec::new();
        std::mem::swap(&mut self.rows, &mut rows);
        rows[i][j] = value;
        self.rows = rows;
        assert(self@.rows =~= old(self)@.rows.update(
            i as int,
            old(self)@.rows[i as int].update(j as int, value),
        ));
    }

    /// The product `self * rhs` over GF(2); the column count of `self` must
    /// be the row count of `rhs`.
    pub fn multiply(&self, rhs: &BitMatrix) -> (r: Result<BitMatrix, MatrixError>)
        ensures
            r is Ok <==> self@.width == rhs@.height(),
            r matches Ok(m) ==> m@ == product(self@, rhs@),
            r matches Err(e) ==> e == MatrixError::DimensionMismatch,
    {
        proof {
            use_type_invariant(self);
            use_type_invariant(rhs);
        }
        let h = self.rows.len();
        let n = self.ncols;
        let w = rhs.ncols;
        if n != rhs.rows.len() {
            return Err(MatrixError::DimensionMismatch);
        }
        let mut rows: Vec<Vec<bool>> = Vec::new();
        let mut i: usize = 0;
        while i < h
            invariant
                i <= h,
                h == self.rows.len(),
                n == self.ncols,
                n == rhs.rows.len(),
                w == rhs.ncols,
                rect(self.rows@, n as nat),
                rect(rhs.rows@, w as nat),
                rows.len() == i,
                rect(rows@, w as nat),
                forall|r: int, c: int|
                    0 <= r < i && 0 <= c < w ==> #[trigger] rows[r]@[c] == xor_sum(
                        dot_term(self@, rhs@, r, c),
                        n as int,
                    ),
            decreases h - i,
        {
            let mut row: Vec<bool> = Vec::new();
            let mut j: usize = 0;
            while j < w
                invariant
                    j <= w,
                    i < h,
                    h == self.rows.len(),
                    n == self.ncols,
                    n == rhs.rows.len(),
                    w == rhs.ncols,
                    rect(self.rows@, n as nat),
                    rect(rhs.rows@, w as nat),
                    row.len() == j,
                    forall|c: int|
                        0 <= c < j ==> #[trigger] row[c] == xor_sum(
                            dot_term(self@, rhs@, i as int, c),
                            n as int,
                        ),
                decreases w - j,
            {
                let mut acc = false;
                let mut k: usize = 0;
                while k < n
                    invariant
                        k <= n,
                        i < h,
                        j < w,
                        h == self.rows.len(),
                        n == self.ncols,
                        n == rhs.rows.len(),
                        w == rhs.ncols,
                        rect(self.rows@, n as nat),
                        rect(rhs.rows@, w as nat),
                        acc == xor_sum(dot_term(self@, rhs@, i as int, j as int), k as int),
                    decreases n - k,
                {
                    if self.rows[i][k] && rhs.rows[k][j] {
                        acc = !acc;
                    }
                    k = k + 1;
                }
                row.push(acc);
                j = j + 1;
            }
            rows.push(row);
            i = i + 1;
        }
        proof {
            let (a, b) = (self@, rhs@);
            lemma_grid_of_build(
                rows@,
                h as nat,
                w as nat,
                |i: int, j: int| xor_sum(dot_term(a, b, i, j), a.width as int),
            );
        }
        Ok(BitMatrix { rows, ncols: w })
    }

    /// The entrywise sum `self + rhs` over GF(2); the shapes must agree.
    pub fn plus(&self, rhs: &BitMatrix) -> (r: Result<BitMatrix, MatrixError>)
        ensures
            r is Ok <==> self@.width == rhs@.width && self@.height() == rhs@.height(),
            r matches Ok(m) ==> m@ == sum(self@, rhs@),
            r matches Err(e) ==> e == MatrixError::DimensionMismatch,
    {
        proof {
            use_type_invariant(self);
            use_type_invariant(rhs);
        }
        let h = self.rows.len();
        let w = self.ncols;
        if h != rhs.rows.len() || w != rhs.ncols {
            return Err(MatrixError::DimensionMismatch);
        }
        let mut rows: Vec<Vec<bool>> = Vec::new();
        let mut i: usize = 0;
        while i < h
            invariant
                i <= h,
                h == self.rows.len(),
                h == rhs.rows.len(),
                w == self.ncols,
                w == rhs.ncols,
                rect(self.rows@, w as nat),
                rect(rhs.rows@, w as nat),
                rows.len() == i,
                rect(rows@, w as nat),
                forall|r: int, c: int|
                    0 <= r < i && 0 <= c < w ==> #[trigger] rows[r]@[c] == (self@.at(r, c)
                        != rhs@.at(r, c)),
            decreases h - i,
        {
            let mut row: Vec<bool> = Vec::new();
            let mut j: usize = 0;
            while j < w
                invariant
                    j <= w,
                    i < h,
                    h == self.rows.len(),
                    h == rhs.rows.len(),
                    w == self.ncols,
                    w == rhs.ncols,
                    rect(self.rows@, w as nat),
                    rect(rhs.rows@, w as nat),
                    row.len() == j,
                    forall|c: int|
                        0 <= c < j ==> #[trigger] row[c] == (self@.at(i as int, c) != rhs@.at(
                            i as int,
                            c,
                        )),
                decreases w - j,
            {
                row.push(self.rows[i][j] != rhs.rows[i][j]);
                j = j + 1;
            }
            rows.push(row);
            i = i + 1;
        }
        proof {
            let (a, b) = (self@, rhs@);
            lemma_grid_of_build(
                rows@,
                h as nat,
                w as nat,
                |i: int, j: int| a.at(i, j) != b.at(i, j),
            );
        }
        Ok(BitMatrix { rows, ncols: w })
    }

    /// The transpose of `self`.
    pub fn transposed(&self) -> (m: BitMatrix)
        ensures
            m@ == transpose(self@),
    {
        proof {
            use_type_invariant(self);
        }
        let h = self.rows.len();
        let w = self.ncols;
        let mut rows: Vec<Vec<bool>> = Vec::new();
        let mut i: usize = 0;
        while i < w
            invariant
                i <= w,
                h == self.rows.len(),
                w == self.ncols,
                rect(self.rows@, w as nat),
                rows.len() == i,
                rect(rows@, h as nat),
                forall|r: int, c: int|
                    0 <= r < i && 0 <= c < h ==> #[trigger] rows[r]@[c] == self@.at(c, r),
            decreases w - i,
        {
            let mut row: Vec<bool> = Vec::new();
            let mut j: usize = 0;
            while j < h
                invariant
                    j <= h,
                    i < w,
                    h == self.rows.len(),
                    w == self.ncols,
                    rect(self.rows@, w as nat),
                    row.len() == j,
                    forall|c: int| 0 <= c < j ==> #[trigger] row[c] == self@.at(c, i as int),
                decreases h - j,
            {
                row.push(self.rows[j][i]);
                j = j + 1;
            }
            rows.push(row);
            i = i + 1;
        }
        proof {
            let a = self@;
            lemma_grid_of_build(rows@, w as nat, h as nat, |i: int, j: int| a.at(j, i));
        }
        BitMatrix { rows, ncols: h }
    }

    /// Whether `self` and `other` have the same shape and the same entries.
    pub fn equals(&self, other: &BitMatrix) -> (b: bool)
        ensures
            b == (self@ == other@),
    {
        proof {
            use_type_invariant(self);
            use_type_invariant(other);
        }
        let h = self.rows.len();
        let w = self.ncols;
        if h != other.rows.len() || w != other.ncols {
            return false;
        }
        let mut i: usize = 0;
        while i < h
            invariant
                i <= h,
                h == self.rows.len(),
                h == other.rows.len(),
                w == self.ncols,
                w == other.ncols,
                rect(self.rows@, w as nat),
                rect(other.rows@, w as nat),
                forall|r: int, c: int|
                    0 <= r < i && 0 <= c < w ==> #[trigger] self@.at(r, c) == other@.at(r, c),
            decreases h - i,
        {
            let mut j: usize = 0;
            while j < w
                invariant
                    j <= w,
                    i < h,
                    h == self.rows.len(),
                    h == other.rows.len(),
                    w == self.ncols,
                    w == other.ncols,
                    rect(self.rows@, w as nat),
                    rect(other.rows@, w as nat),
                    forall|c: int|
                        0 <= c < j ==> #[trigger] self@.at(i as int, c) == other@.at(i as int, c),
                decreases w - j,
            {
                if self.rows[i][j] != other.rows[i][j] {
                    assert(self@.at(i as int, j as int) != other@.at(i as int, j as int));
                    return false;
                }
                j = j + 1;
            }
            i = i + 1;
        }
        proof {
            lemma_grid_ext(self@, other@);
        }
        true
    }

    /// The first `nrows` rows and `ncols` columns of `self`.
    pub fn submatrix(&self, nrows: usize, ncols: usize) -> (m: BitMatrix)
        requires
            nrows <= self@.height(),
            ncols <= self@.width,
        ensures
            m@ == top_left(self@, nrows as nat, ncols as nat),
    {
        proof {
            use_type_invariant(self);
        }
        let mut rows: Vec<Vec<bool>> = Vec::new();
        let mut i: usize = 0;
        while i < nrows
            invariant
                i <= nrows <= self.rows.len(),
                ncols <= self.ncols,
                rect(self.rows@, self.ncols as nat),
                rows.len() == i,
                rect(rows@, ncols as nat),
                forall|r: int, c: int|
                    0 <= r < i && 0 <= c < ncols ==> #[trigger] rows[r]@[c] == self@.at(r, c),
            decreases nrows - i,
        {
            let mut row: Vec<bool> = Vec::new();
            let mut j: usize = 0;
            while j < ncols
                invariant
                    j <= ncols <= self.ncols,
                    i < nrows <= self.rows.len(),
                    rect(self.rows@, self.ncols as nat),
                    row.len() == j,
                    forall|c: int| 0 <= c < j ==> #[trigger] row[c] == self@.at(i as int, c),
                decreases ncols - j,
            {
                row.push(self.rows[i][j]);
                j = j + 1;
            }
            rows.push(row);
            i = i + 1;
        }
        proof {
            let a = self@;
            lemma_grid_of_build(rows@, nrows as nat, ncols as nat, |i: int, j: int| a.at(i, j));
        }
        BitMatrix { rows, ncols }
    }

    /// The matrix made of the columns of `self` that `indices` lists, in
    /// that order.
    pub fn select_columns(&self, indices: &Vec<usize>) -> (m: BitMatrix)
        requires
            forall|c: int| 0 <= c < indices@.len() ==> #[trigger] indices@[c] < self@.width,
        ensures
            m@ == selected_columns(self@, indices@.map_values(|x: usize| x as int)),
    {
        proof {
            use_type_invariant(self);
        }
        let h = self.rows.len();
        let w = indices.len();
        let ghost idx = indices@.map_values(|x: usize| x as int);
        let mut rows: Vec<Vec<bool>> = Vec::new();
        let mut i: usize = 0;
        while i < h
            invariant
                i <= h,
                h == self.rows.len(),
                w == indices@.len(),
                idx == indices@.map_values(|x: usize| x as int),
                rect(self.rows@, self.ncols as nat),
                forall|c: int| 0 <= c < indices@.len() ==> #[trigger] indices@[c] < self.ncols,
                rows.len() == i,
                rect(rows@, w as nat),
                forall|r: int, c: int|
                    0 <= r < i && 0 <= c < w ==> #[trigger] rows[r]@[c] == self@.at(r, idx[c]),
            decreases h - i,
        {
            let mut row: Vec<bool> = Vec::new();
            let mut j: usize = 0;
            while j < w
                invariant
                    j <= w,
                    i < h,
                    h == self.rows.len(),
                    w == indices@.len(),
                    idx == indices@.map_values(|x: usize| x as int),
                    rect(self.rows@, self.ncols as nat),
                    forall|c: int| 0 <= c < indices@.len() ==> #[trigger] indices@[c] < self.ncols,
                    row.len() == j,
                    forall|c: int| 0 <= c < j ==> #[trigger] row[c] == self@.at(i as int, idx[c]),
                decreases w - j,
            {
                row.push(self.rows[i][indices[j]]);
                j = j + 1;
            }
            rows.push(row);
            i = i + 1;
        }
        proof {
            let a = self@;
            lemma_grid_of_build(rows@, h as nat, w as nat, |i: int, c: int| a.at(i, idx[c]));
        }
        BitMatrix { rows, ncols: w }
    }

    /// A copy of column `j`.
    pub fn column(&self, j: usize) -> (col: Vec<bool>)
        requires
            j < self@.width,
        ensures
            col@ == column(self@, j as int),
    {
        proof {
            use_type_invariant(self);
        }
        let h = self.rows.len();
        let mut col: Vec<bool> = Vec::new();
        let mut i: usize = 0;
        while i < h
            invariant
                i <= h,
                h == self.rows.len(),
                j < self.ncols,
                rect(self.rows@, self.ncols as nat),
                col.len() == i,
                forall|r: int| 0 <= r < i ==> #[trigger] col[r] == self@.at(r, j as int),
            decreases h - i,
        {
            col.push(self.rows[i][j]);
            i = i + 1;
        }
        assert(col@ =~= column(self@, j as int));
        col
    }

    /// A copy of row `i`.
    pub fn row(&self, i: usize) -> (r: Vec<bool>)
        requires
            i < self@.height(),
        ensures
            r@ == self@.rows[i as int],
    {
        let r = self.rows[i].clone();
        assert(r@ =~= self.rows[i as int]@);
        r
    }
}

/// The matrix of a result that is known not to be an error.
pub(crate) fn expect_matrix(r: Result<BitMatrix, MatrixError>) -> (m: BitMatrix)
    requires
        r is Ok,
    ensures
        r == Ok::<BitMatrix, MatrixError>(m),
{
    match r {
        Ok(m) => m,
        Err(_) => vstd::pervasive::unreached(),
    }
}

/// `(j - t) % w` for `0 <= j < w`, computed from `off == t % w`.
pub proof fn lemma_cyclic_index(j: int, t: int, w: int, off: int)
    requires
        0 < w,
        0 <= j < w,
        off == t % w,
    ensures
        (j - t) % w == (if j >= off {
            j - off
        } else {
            j + w - off
        }),
{
    lemma_sub_mod_noop(j, t, w);
    lemma_small_mod(j as nat, w as nat);
    if j >= off {
        lemma_small_mod((j - off) as nat, w as nat);
    } else {
        lemma_mod_add_multiples_vanish(j - off, w);
        lemma_small_mod((j + w - off) as nat, w as nat);
    }
}

/// Whether `matrix` is a square identity matrix.
pub fn matrix_is_identity(matrix: &BitMatrix) -> (b: bool)
    ensures
        b == (matrix@ == identity(matrix@.height())),
{
    proof {
        use_type_invariant(matrix);
    }
    let n = matrix.rows.len();
    if n != matrix.ncols {
        return false;
    }
    let mut i: usize = 0;
    while i < n
        invariant
            i <= n,
            n == matrix.rows.len(),
            n == matrix.ncols,
            rect(matrix.rows@, n as nat),
            forall|r: int, c: int|
                0 <= r < i && 0 <= c < n ==> #[trigger] matrix.rows[r]@[c] == (r == c),
        decreases n - i,
    {
        let mut j: usize = 0;
        while j < n
            invariant
                j <= n,
                i < n,
                n == matrix.rows.len(),
                n == matrix.ncols,
                rect(matrix.rows@, n as nat),
                forall|c: int| 0 <= c < j ==> #[trigger] matrix.rows[i as int]@[c] == (i == c),
            decreases n - j,
        {
            if matrix.rows[i][j] != (i == j) {
                assert(matrix@.at(i as int, j as int) != identity(n as nat).at(i as int, j as int));
                return false;
            }
            j = j + 1;
        }
        i = i + 1;
    }
    proof {
        lemma_grid_of_build(matrix.rows@, n as nat, n as nat, |i: int, j: int| i == j);
    }
    true
}

/// Whether every entry of `matrix` is zero.
pub fn matrix_is_zero(matrix: &BitMatrix) -> (b: bool)
    ensures
        b == is_zero(matrix@),
{
    proof {
        use_type_invariant(matrix);
    }
    let n = matrix.rows.len();
    let w = matrix.ncols;
    let mut i: usize = 0;
    while i < n
        invariant
            i <= n,
            n == matrix.rows.len(),
            w == matrix.ncols,
            rect(matrix.rows@, w as nat),
            forall|r: int, c: int| 0 <= r < i && 0 <= c < w ==> !#[trigger] matrix@.at(r, c),
        decreases n - i,
    {
        let mut j: usize = 0;
        while j < w
            invariant
                j <= w,
                i < n,
                n == matrix.rows.len(),
                w == matrix.ncols,
                rect(matrix.rows@, w as nat),
                forall|c: int| 0 <= c < j ==> !#[trigger] matrix@.at(i as int, c),
            decreases w - j,
        {
            if matrix.rows[i][j] {
                assert(matrix@.at(i as int, j as int));
                return false;
            }
            j = j + 1;
        }
        i = i + 1;
    }
    true
}

/// Number of set entries of `matrix`, or `usize::MAX` where the count does
/// not fit a machine word.
pub fn matrix_elements_sum(matrix: &BitMatrix) -> (total: usize)
    ensures
        total == if grid_weight(matrix@) <= usize::MAX {
            grid_weight(matrix@)
        } else {
            usize::MAX as nat
        },
{
    proof {
        use_type_invariant(matrix);
    }
    let n = matrix.rows.len();
    let mut total: usize = 0;
    let mut i: usize = 0;
    while i < n
        invariant
            i <= n,
            n == matrix.rows.len(),
            rect(matrix.rows@, matrix.ncols as nat),
            total == if ones_in_rows(matrix@, i as int) <= usize::MAX {
                ones_in_rows(matrix@, i as int)
            } else {
                usize::MAX as nat
            },
        decreases n - i,
    {
        let row_weight = crate::bits::vector_weight(&matrix.rows[i]);
        assert(matrix@.rows[i as int] == matrix.rows[i as int]@);
        total = total.saturating_add(row_weight);
        i = i + 1;
    }
    total
}

/// The zero matrix with `rows` rows and `cols` columns.
pub fn make_zero_matrix(rows: usize, cols: usize) -> (m: BitMatrix)
    ensures
        m@ == zero(rows as nat, cols as nat),
        is_zero(m@),
{
    BitMatrix::from_element(rows, cols, false)
}

/// The identity matrix with `size` rows.
pub fn make_identity_matrix(size: usize) -> (m: BitMatrix)
    ensures
        m@ == identity(size as nat),
{
    let mut rows: Vec<Vec<bool>> = Vec::new();
    let mut i: usize = 0;
    while i < size
        invariant
            i <= size,
            rows.len() == i,
            rect(rows@, size as nat),
            forall|r: int, c: int|
                0 <= r < i && 0 <= c < size ==> #[trigger] rows[r]@[c] == (r == c),
        decreases size - i,
    {
        let mut row = vec![false; size];
        row[i] = true;
        rows.push(row);
        i = i + 1;
    }
    proof {
        lemma_grid_of_build(rows@, size as nat, size as nat, |i: int, j: int| i == j);
    }
    BitMatrix { rows, ncols: size }
}

/// Appends the columns of `to_add` to the right of `target`.  The row
/// counts must agree and the new column count must fit a machine word;
/// otherwise `target` is left as it was.
pub fn concat_horizontally_mat(target: &mut BitMatrix, to_add: &BitMatrix) -> (r: Result<
    (),
    MatrixError,
>)
    ensures
        r == if old(target)@.height() != to_add@.height() {
            Err::<(), MatrixError>(MatrixError::DimensionMismatch)
        } else if old(target)@.width + to_add@.width > usize::MAX {
            Err(MatrixError::SizeOverflow)
        } else {
            Ok(())
        },
        r is Ok ==> final(target)@ == hcat(old(target)@, to_add@),
        r is Err ==> final(target)@ == old(target)@,
{
    proof {
        use_type_invariant(&*target);
        use_type_invariant(to_add);
    }
    let n = target.rows.len();
    if n != to_add.rows.len() {
        return Err(MatrixError::DimensionMismatch);
    }
    let w0 = target.ncols;
    let w1 = to_add.ncols;
    if w1 > usize::MAX - w0 {
        return Err(MatrixError::SizeOverflow);
    }
    let mut rows: Vec<Vec<bool>> = Vec::new();
    let mut i: usize = 0;
    while i < n
        invariant
            i <= n,
            n == target.rows.len(),
            n == to_add.rows.len(),
            w0 == target.ncols,
            w1 == to_add.ncols,
            w0 + w1 <= usize::MAX,
            *target == *old(target),
            rect(target.rows@, w0 as nat),
            rect(to_add.rows@, w1 as nat),
            rows.len() == i,
            rect(rows@, (w0 + w1) as nat),
            forall|r: int, c: int|
                0 <= r < i && 0 <= c < w0 + w1 ==> #[trigger] rows[r]@[c] == hcat(
                    old(target)@,
                    to_add@,
                ).at(r, c),
        decreases n - i,
    {
        let mut row: Vec<bool> = Vec::new();
        let mut j: usize = 0;
        while j < w0
            invariant
                j <= w0,
                i < n,
                n == target.rows.len(),
                w0 == target.ncols,
                *target == *old(target),
                rect(target.rows@, w0 as nat),
                row.len() == j,
                forall|c: int| 0 <= c < j ==> #[trigger] row[c] == old(target)@.at(i as int, c),
            decreases w0 - j,
        {
            row.push(target.rows[i][j]);
            j = j + 1;
        }
        let mut k: usize = 0;
        while k < w1
            invariant
                k <= w1,
                i < n,
                n == to_add.rows.len(),
                w1 == to_add.ncols,
                w0 + w1 <= usize::MAX,
                rect(to_add.rows@, w1 as nat),
                row.len() == w0 + k,
                forall|c: int| 0 <= c < w0 ==> #[trigger] row[c] == old(target)@.at(i as int, c),
                forall|c: int| 0 <= c < k ==> #[trigger] row[w0 + c] == to_add@.at(i as int, c),
            decreases w1 - k,
        {
            row.push(to_add.rows[i][k]);
            k = k + 1;
        }
        assert forall|c: int| 0 <= c < w0 + w1 implies #[trigger] row@[c] == hcat(
            old(target)@,
            to_add@,
        ).at(i as int, c) by {
            if c >= w0 {
                assert(row[w0 + (c - w0)] == to_add@.at(i as int, c - w0));
            }
        }
        rows.push(row);
        i = i + 1;
    }
    proof {
        let wanted = hcat(old(target)@, to_add@);
        let got = grid_of(rows@, (w0 + w1) as nat);
        assert forall|r: int, c: int| 0 <= r < n && 0 <= c < w0 + w1 implies #[trigger] got.at(
            r,
            c,
        ) == wanted.at(r, c) by {
            assert(rows[r]@[c] == wanted.at(r, c));
        }
        lemma_grid_ext(got, wanted);
    }
    *target = BitMatrix { rows, ncols: w0 + w1 };
    Ok(())
}

/// Appends the rows of `to_add` below `target`.  The column counts must
/// agree; otherwise `target` is left as it was.
pub fn concat_vertically_mat(target: &mut BitMatrix, to_add: &BitMatrix) -> (r: Result<
    (),
    MatrixError,
>)
    ensures
        r == if old(target)@.width != to_add@.width {
            Err::<(), MatrixError>(MatrixError::DimensionMismatch)
        } else {
            Ok(())
        },
        r is Ok ==> final(target)@ == vcat(old(target)@, to_add@),
        r is Err ==> final(target)@ == old(target)@,
{
    proof {
        use_type_invariant(&*target);
        use_type_invariant(to_add);
    }
    if target.ncols != to_add.ncols {
        return Err(MatrixError::DimensionMismatch);
    }
    let w = target.ncols;
    let n = to_add.rows.len();
    let mut rows: Vec<Vec<bool>> = Vec::new();
    std::mem::swap(&mut target.rows, &mut rows);
    let mut i: usize = 0;
    while i < n
        invariant
            i <= n,
            n == to_add.rows.len(),
            w == to_add.ncols,
            rect(to_add.rows@, w as nat),
            rect(rows@, w as nat),
            rows.len() == old(target).rows.len() + i,
            forall|r: int|
                0 <= r < old(target).rows.len() ==> (#[trigger] rows[r])@ == old(
                    target,
                ).rows[r]@,
            forall|r: int| 0 <= r < i ==> (#[trigger] rows[old(target).rows.len() + r])@
                == to_add.rows[r]@,
        decreases n - i,
    {
        let row = to_add.rows[i].clone();
        assert(row@ =~= to_add.rows[i as int]@);
        rows.push(row);
        i = i + 1;
    }
    target.rows = rows;
    proof {
        let wanted = vcat(old(target)@, to_add@);
        let base = old(target).rows.len() as int;
        assert forall|r: int| 0 <= r < target@.rows.len() implies #[trigger] target@.rows[r]
            == wanted.rows[r] by {
            if r >= base {
                assert(target.rows[base + (r - base)]@ == to_add.rows[r - base]@);
            }
        }
        assert(target@.rows =~= wanted.rows);
    }
    Ok(())
}

/// `row` moved `shift` places to the right, cyclically.
pub fn shifted_row(row: &[bool], shift: usize) -> (r: Vec<bool>)
    ensures
        r@ == rotate_right(row@, shift as int),
{
    let len = row.len();
    let mut new_row: Vec<bool> = Vec::new();
    if len == 0 {
        assert(new_row@ =~= rotate_right(row@, shift as int));
        return new_row;
    }
    let off = shift % len;
    let mut j: usize = 0;
    while j < len
        invariant
            j <= len,
            0 < len,
            len == row@.len(),
            off == shift % len,
            new_row.len() == j,
            forall|c: int| 0 <= c < j ==> #[trigger] new_row[c] == row@[(c - shift) % (len as int)],
        decreases len - j,
    {
        proof {
            lemma_cyclic_index(j as int, shift as int, len as int, off as int);
        }
        let src = if j >= off {
            j - off
        } else {
            j + (len - off)
        };
        new_row.push(row[src]);
        j = j + 1;
    }
    assert(new_row@ =~= rotate_right(row@, shift as int));
    new_row
}

/// The `rows` by `cols` matrix whose row `i` is `row`, cut or extended with
/// zeros to `cols` entries, moved `i * shift` places to the right,
/// cyclically.
pub fn make_circulant_matrix(row: &[bool], rows: usize, cols: usize, shift: usize) -> (m: BitMatrix)
    ensures
        m@ == circulant(padded(row@, cols as nat), rows as nat, cols as nat, shift as int),
        cols <= row@.len() ==> m@ == circulant(row@, rows as nat, cols as nat, shift as int),
{
    let ghost base = padded(row@, cols as nat);
    proof {
        if cols <= row@.len() {
            lemma_circulant_padded(row@, rows as nat, cols as nat, shift as int);
        }
    }
    let len = row.len();
    let mut out: Vec<Vec<bool>> = Vec::new();
    if cols == 0 {
        let mut i: usize = 0;
        while i < rows
            invariant
                i <= rows,
                out.len() == i,
                rect(out@, 0),
            decreases rows - i,
        {
            out.push(Vec::new());
            i = i + 1;
        }
        proof {
            lemma_grid_of_build(
                out@,
                rows as nat,
                0,
                |i: int, j: int| base[(j - i * shift) % (cols as int)],
            );
        }
        return BitMatrix { rows: out, ncols: 0 };
    }
    let step = shift % cols;
    let mut off: usize = 0;
    let mut i: usize = 0;
    assert(0 * shift == 0) by (nonlinear_arith);
    while i < rows
        invariant
            i <= rows,
            0 < cols,
            len == row@.len(),
            base == padded(row@, cols as nat),
            step == shift % cols,
            off == (i * shift) % (cols as int),
            out.len() == i,
            rect(out@, cols as nat),
            forall|r: int, c: int|
                0 <= r < i && 0 <= c < cols ==> #[trigger] out[r]@[c] == base[(c - r * shift) % (
                cols as int)],
        decreases rows - i,
    {
        let mut new_row: Vec<bool> = Vec::new();
        let mut j: usize = 0;
        while j < cols
            invariant
                j <= cols,
                0 < cols,
                len == row@.len(),
                base == padded(row@, cols as nat),
                off == (i * shift) % (cols as int),
                new_row.len() == j,
                forall|c: int|
                    0 <= c < j ==> #[trigger] new_row[c] == base[(c - i * shift) % (cols as int)],
            decreases cols - j,
        {
            proof {
                lemma_cyclic_index(j as int, i * shift, cols as int, off as int);
            }
            let src = if j >= off {
                j - off
            } else {
                j + (cols - off)
            };
            let bit = src < len && row[src];
            new_row.push(bit);
            j = j + 1;
        }
        out.push(new_row);
        proof {
            lemma_add_mod_noop(i * shift, shift as int, cols as int);
            assert((i + 1) * shift == i * shift + shift) by (nonlinear_arith);
        }
        off = if off >= cols - step {
            off - (cols - step)
        } else {
            off + step
        };
        proof {
            let total = (i * shift) % (cols as int) + (shift as int) % (cols as int);
            if total >= cols {
                lemma_mod_add_multiples_vanish(total - cols, cols as int);
                lemma_small_mod((total - cols) as nat, cols as nat);
            } else {
                lemma_small_mod(total as nat, cols as nat);
            }
        }
        i = i + 1;
    }
    proof {
        lemma_grid_of_build(
            out@,
            rows as nat,
            cols as nat,
            |i: int, j: int| base[(j - i * shift) % (cols as int)],
        );
    }
    BitMatrix { rows: out, ncols: cols }
}

/// The inverse of `matrix` over GF(2) by Gauss-Jordan elimination on
/// `[matrix | identity]`, or `None` where `matrix` is not square or singular.
pub fn try_inverse_matrix(matrix: &BitMatrix) -> (r: Option<BitMatrix>)
    ensures
        r is Some <==> is_invertible(matrix@),
        r matches Some(inv) ==> inverse(matrix@) == Some(inv@),
{
    proof {
        use_type_invariant(matrix);
    }
    let n = matrix.rows.len();
    if n != matrix.ncols {
        return None;
    }
    if matrix_is_identity(matrix) {
        proof {
            lemma_identity_inverse(n as nat);
            lemma_inverse_is(matrix@, matrix@);
        }
        return Some(matrix.clone());
    }
    let ghost m = matrix@;
    let ghost mut f = identity(n as nat);
    let copy = matrix.clone();
    let unit = make_identity_matrix(n);
    proof {
        use_type_invariant(&copy);
        use_type_invariant(&unit);
    }
    let mut left = copy.rows;
    let mut right = unit.rows;
    proof {
        lemma_product_identity_left(m);
        lemma_product_identity_left(identity(n as nat));
        assert(grid_of(left@, n as nat) == m);
        assert(grid_of(right@, n as nat) == identity(n as nat));
    }
    let mut i: usize = 0;
    while i < n
        invariant
            i <= n,
            left.len() == n,
            right.len() == n,
            rect(left@, n as nat),
            rect(right@, n as nat),
            m == matrix@,
            m.is_square(),
            m.height() == n,
            f.has_shape(n as nat, n as nat),
            product(grid_of(right@, n as nat), m) == grid_of(left@, n as nat),
            product(f, grid_of(left@, n as nat)) == m,
            product(f, grid_of(right@, n as nat)) == identity(n as nat),
            forall|r: int, c: int| 0 <= r < n && 0 <= c < i ==> #[trigger] left[r]@[c] == (r == c),
        decreases n - i,
    {
        if !left[i][i] {
            let mut j: usize = i + 1;
            while j < n && !left[j][i]
                invariant
                    i < j <= n,
                    left.len() == n,
                    rect(left@, n as nat),
                    !left[i as int]@[i as int],
                    forall|r: int| i <= r < j ==> !#[trigger] left[r]@[i as int],
                decreases n - j,
            {
                j = j + 1;
            }
            if j == n {
                proof {
                    let l = grid_of(left@, n as nat);
                    assert forall|r: int, c: int| 0 <= r < n && 0 <= c < i implies #[trigger] l.at(
                        r,
                        c,
                    ) == (r == c) by {
                        assert(left[r]@[c] == (r == c));
                    }
                    assert forall|r: int| i <= r < n implies !#[trigger] l.at(r, i as int) by {
                        assert(!left[r]@[i as int]);
                    }
                    lemma_no_pivot_singular(m, f, l, i as int);
                }
                return None;
            }
            proof {
                let l = grid_of(left@, n as nat);
                let r = grid_of(right@, n as nat);
                lemma_row_swap_product(r, m, i as int, j as int);
                lemma_swap_cancels(f, l, i as int, j as int);
                lemma_swap_cancels(f, r, i as int, j as int);
                f = col_swapped(f, i as int, j as int);
                assert forall|r: int, c: int|
                    0 <= r < n && 0 <= c < i implies #[trigger] row_swapped(
                    l,
                    i as int,
                    j as int,
                ).at(r, c) == (r == c) by {
                    assert(left[r]@[c] == (r == c));
                    assert(left[i as int]@[c] == (i == c));
                    assert(left[j as int]@[c] == (j == c));
                }
            }
            let ghost swapped = row_swapped(grid_of(left@, n as nat), i as int, j as int);
            swap_rows(&mut left, i, j, Ghost(n as nat));
            swap_rows(&mut right, i, j, Ghost(n as nat));
            proof {
                assert forall|r: int, c: int|
                    0 <= r < n && 0 <= c < i implies #[trigger] left[r]@[c]
                    == (r == c) by {
                    assert(swapped.at(r, c) == (r == c));
                }
                assert(swapped.at(i as int, i as int));
            }
        }
        let mut j: usize = 0;
        while j < n
            invariant
                j <= n,
                i < n,
                left.len() == n,
                right.len() == n,
                rect(left@, n as nat),
                rect(right@, n as nat),
                m.is_square(),
                m.height() == n,
                f.has_shape(n as nat, n as nat),
                product(grid_of(right@, n as nat), m) == grid_of(left@, n as nat),
                product(f, grid_of(left@, n as nat)) == m,
                product(f, grid_of(right@, n as nat)) == identity(n as nat),
                forall|r: int, c: int|
                    0 <= r < n && 0 <= c < i ==> #[trigger] left[r]@[c] == (r == c),
                left[i as int]@[i as int],
                forall|r: int| 0 <= r < j && r != i ==> !#[trigger] left[r]@[i as int],
            decreases n - j,
        {
            if j != i && left[j][i] {
                let ghost l = grid_of(left@, n as nat);
                let ghost r = grid_of(right@, n as nat);
                proof {
                    lemma_row_add_product(r, m, i as int, j as int);
                    lemma_add_cancels(f, l, i as int, j as int);
                    lemma_add_cancels(f, r, i as int, j as int);
                    f = col_added(f, i as int, j as int);
                }
                xor_row_into(&mut left, i, j, Ghost(n as nat));
                xor_row_into(&mut right, i, j, Ghost(n as nat));
                proof {
                    let l2 = row_added(l, i as int, j as int);
                    assert(grid_of(left@, n as nat) == l2);
                    assert forall|a: int, c: int|
                        0 <= a < n && 0 <= c < n implies #[trigger] left[a]@[c]
                        == (if a == j {
                        l.at(a, c) != l.at(i as int, c)
                    } else {
                        l.at(a, c)
                    }) by {
                        assert(left[a]@[c] == l2.at(a, c));
                    }
                    assert forall|a: int, c: int|
                        0 <= a < n && 0 <= c < i implies #[trigger] left[a]@[c]
                        == (a == c) by {
                        assert(l.at(a, c) == (a == c));
                        assert(l.at(i as int, c) == (i == c));
                    }
                    assert forall|a: int|
                        0 <= a < j + 1 && a != i implies !#[trigger] left[a]@[i as int] by {
                        if a < j {
                            assert(!l.at(a, i as int));
                        }
                    }
                    assert(left[i as int]@[i as int] == l.at(i as int, i as int));
                }
            }
            j = j + 1;
        }
        proof {
            assert forall|r: int, c: int|
                0 <= r < n && 0 <= c < i + 1 implies #[trigger] left[r]@[c]
                == (r == c) by {
                if c == i && r != i {
                    assert(!left[r]@[i as int]);
                }
            }
        }
        i = i + 1;
    }
    proof {
        let l = grid_of(left@, n as nat);
        let r = grid_of(right@, n as nat);
        lemma_grid_of_build(left@, n as nat, n as nat, |i: int, j: int| i == j);
        assert(l == identity(n as nat));
        lemma_product_identity_right(f);
        assert(f == m);
        assert(is_inverse_pair(m, r));
        lemma_inverse_is(m, r);
    }
    Some(BitMatrix { rows: right, ncols: n })
}

} // verus!
