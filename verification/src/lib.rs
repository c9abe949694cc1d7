//! A dense two-dimensional matrix of signed integers, stored in row-major
//! order, with shape-checked arithmetic, reductions and structural
//! operations (selection, splitting, concatenation, transposition).

pub mod error;
pub mod functionalities;
pub mod iterators;
pub mod laws;
pub mod operations;

use vstd::prelude::*;

use crate::error::MatrixError;

verus! {

broadcast use vstd::std_specs::vec::group_vec_axioms;

/// A dense matrix with `nb_lines` rows and `nb_columns` columns.
///
/// The elements are kept in row-major order: element `(i, j)` sits at
/// offset `i * nb_columns + j` of `data`. Every matrix handed out by this
/// library satisfies [`Matrix::wf`]: the element count equals
/// `nb_lines * nb_columns`.
#[derive(Clone, Debug)]
pub struct Matrix {
    pub nb_lines: usize,
    pub nb_columns: usize,
    pub data: Vec<i64>,
}

impl Matrix {
    /// Shape invariant: the storage holds exactly one element per cell.
    pub open spec fn wf(self) -> bool {
        self.data@.len() == self.nb_lines as int * self.nb_columns as int
    }

    /// Element `(i, j)` under the row-major layout.
    pub open spec fn ent(self, i: int, j: int) -> i64 {
        self.data@[i * self.nb_columns as int + j]
    }

    /// Row `i` as the contiguous run of `nb_columns` elements.
    pub open spec fn row_view(self, i: int) -> Seq<i64> {
        self.data@.subrange(i * self.nb_columns as int, (i + 1) * self.nb_columns as int)
    }

    /// Both dimensions agree.
    pub open spec fn same_shape(self, other: Matrix) -> bool {
        self.nb_lines == other.nb_lines && self.nb_columns == other.nb_columns
    }
}

/// A row-major offset lies inside the storage of a `rows x cols` matrix.
pub proof fn lemma_offset_in_bounds(i: int, j: int, rows: int, cols: int)
    by (nonlinear_arith)
    requires
        0 <= i < rows,
        0 <= j < cols,
    ensures
        0 <= i * cols + j < rows * cols,
        i * cols <= i * cols + j < (i + 1) * cols <= rows * cols,
{
}

/// Row `i` has one element per column, and reading it through `row_view`
/// agrees with reading it through `ent`.
pub proof fn lemma_row_view_unfold(m: Matrix, i: int)
    requires
        m.wf(),
        0 <= i < m.nb_lines,
    ensures
        m.row_view(i).len() == m.nb_columns,
        forall|j: int| 0 <= j < m.nb_columns ==> m.row_view(i)[j] == m.ent(i, j),
{
    let rows = m.nb_lines as int;
    let cols = m.nb_columns as int;
    assert(0 <= i * cols && (i + 1) * cols <= rows * cols && (i + 1) * cols == i * cols + cols)
        by (nonlinear_arith)
        requires
            0 <= i < rows,
            0 <= cols,
    ;
    assert forall|j: int| 0 <= j < m.nb_columns implies m.row_view(i)[j] == m.ent(i, j) by {
        lemma_offset_in_bounds(i, j, rows, cols);
    }
}

/// Relies on num_traits::zero for i64: the additive identity, 0.
#[verifier::external_body]
pub(crate) fn zero_value() -> (r: i64)
    ensures
        r == 0,
{
    num_traits::zero()
}

/// Relies on num_traits::one for i64: the multiplicative identity, 1.
#[verifier::external_body]
pub(crate) fn one_value() -> (r: i64)
    ensures
        r == 1,
{
    num_traits::one()
}

impl Matrix {
    /// A `nb_lines x nb_columns` matrix with every element equal to `value`.
    pub fn filled(nb_lines: usize, nb_columns: usize, value: i64) -> (r: Matrix)
        requires
            nb_lines as int * nb_columns as int <= usize::MAX,
        ensures
            r.wf(),
            r.nb_lines == nb_lines,
            r.nb_columns == nb_columns,
            forall|k: int| 0 <= k < r.data@.len() ==> r.data@[k] == value,
    {
        let size: usize = nb_lines * nb_columns;
        let mut data: Vec<i64> = Vec::new();
        let mut k: usize = 0;
        while k < size
            invariant
                k <= size,
                data@.len() == k,
                forall|t: int| 0 <= t < k ==> data@[t] == value,
            decreases size - k,
        {
            data.push(value);
            k = k + 1;
        }
        Matrix { nb_lines, nb_columns, data }
    }

    /// A matrix filled with the additive identity.
    pub fn zeros(nb_lines: usize, nb_columns: usize) -> (r: Matrix)
        requires
            nb_lines as int * nb_columns as int <= usize::MAX,
        ensures
            r.wf(),
            r.nb_lines == nb_lines,
            r.nb_columns == nb_columns,
            forall|k: int| 0 <= k < r.data@.len() ==> r.data@[k] == 0,
    {
        let z = zero_value();
        Matrix::filled(nb_lines, nb_columns, z)
    }

    /// A matrix filled with the multiplicative identity.
    pub fn ones(nb_lines: usize, nb_columns: usize) -> (r: Matrix)
        requires
            nb_lines as int * nb_columns as int <= usize::MAX,
        ensures
            r.wf(),
            r.nb_lines == nb_lines,
            r.nb_columns == nb_columns,
            forall|k: int| 0 <= k < r.data@.len() ==> r.data@[k] == 1,
    {
        let o = one_value();
        Matrix::filled(nb_lines, nb_columns, o)
    }

    /// The dimensions as a `(rows, columns)` pair.
    pub fn shape(&self) -> (r: (usize, usize))
        ensures
            r.0 == self.nb_lines,
            r.1 == self.nb_columns,
    {
        (self.nb_lines, self.nb_columns)
    }

    /// The number of elements, which always equals rows times columns.
    pub fn size(&self) -> (r: usize)
        requires
            self.wf(),
        ensures
            r == self.data@.len(),
            r as int == self.nb_lines as int * self.nb_columns as int,
    {
        self.data.len()
    }

    /// Element `(i, j)`.
    pub fn get(&self, i: usize, j: usize) -> (r: i64)
        requires
            self.wf(),
            i < self.nb_lines,
            j < self.nb_columns,
        ensures
            r == self.ent(i as int, j as int),
    {
        let total = self.data.len();
        proof {
            lemma_offset_in_bounds(
                i as int,
                j as int,
                self.nb_lines as int,
                self.nb_columns as int,
            );
            assert((i as int * self.nb_columns as int + j as int) < (total as int));
        }
        self.data[i * self.nb_columns + j]
    }

    /// Write element `(i, j)`; every other element keeps its value.
    pub fn set(&mut self, i: usize, j: usize, value: i64)
        requires
            old(self).wf(),
            i < old(self).nb_lines,
            j < old(self).nb_columns,
        ensures
            final(self).wf(),
            final(self).nb_lines == old(self).nb_lines,
            final(self).nb_columns == old(self).nb_columns,
            final(self).data@ == old(self).data@.update(
                i as int * old(self).nb_columns as int + j,
                value,
            ),
            final(self).ent(i as int, j as int) == value,
    {
        let total = self.data.len();
        proof {
            lemma_offset_in_bounds(
                i as int,
                j as int,
                self.nb_lines as int,
                self.nb_columns as int,
            );
            assert((i as int * self.nb_columns as int + j as int) < (total as int));
        }
        let offset: usize = i * self.nb_columns + j;
        self.data.set(offset, value);
    }

    /// Row `i` copied out as a vector, or `OutOfRange` when `i` reaches
    /// past the last row. Succeeds exactly when `i < nb_lines`.
    pub fn line(&self, i: usize) -> (r: Result<Vec<i64>, MatrixError>)
        requires
            self.wf(),
        ensures
            match r {
                Ok(v) => i < self.nb_lines && v@ == self.row_view(i as int),
                Err(e) => i >= self.nb_lines && e == (MatrixError::OutOfRange {
                    index: i,
                    bound: self.nb_lines,
                }),
            },
    {
        if i >= self.nb_lines {
            return Err(MatrixError::OutOfRange { index: i, bound: self.nb_lines });
        }
        let mut v: Vec<i64> = Vec::new();
        let mut j: usize = 0;
        while j < self.nb_columns
            invariant
                self.wf(),
                i < self.nb_lines,
                j <= self.nb_columns,
                v@.len() == j,
                forall|t: int| 0 <= t < j ==> v@[t] == self.ent(i as int, t),
            decreases self.nb_columns - j,
        {
            let value = self.get(i, j);
            v.push(value);
            j = j + 1;
        }
        proof {
            lemma_row_view_unfold(*self, i as int);
            assert(v@ =~= self.row_view(i as int));
        }
        Ok(v)
    }

    /// Overwrite row `i` with `values`. Succeeds exactly when `i` names a
    /// row and `values` has one element per column; otherwise the matrix
    /// is left unchanged and the offending check is reported.
    pub fn set_line(&mut self, i: usize, values: &Vec<i64>) -> (r: Result<(), MatrixError>)
        requires
            old(self).wf(),
        ensures
            final(self).wf(),
            final(self).nb_lines == old(self).nb_lines,
            final(self).nb_columns == old(self).nb_columns,
            match r {
                Ok(()) => {
                    &&& i < old(self).nb_lines
                    &&& values@.len() == old(self).nb_columns
                    &&& final(self).row_view(i as int) == values@
                    &&& forall|k: int|
                        0 <= k < old(self).data@.len() && !(i as int * old(
                            self,
                        ).nb_columns as int <= k < (i as int + 1) * old(self).nb_columns as int)
                            ==> final(self).data@[k] == old(self).data@[k]
                },
                Err(e) => {
                    &&& *final(self) == *old(self)
                    &&& if i >= old(self).nb_lines {
                        e == (MatrixError::OutOfRange { index: i, bound: old(self).nb_lines })
                    } else {
                        values@.len() != old(self).nb_columns && e == (MatrixError::ShapeMismatch {
                            expected_lines: 1,
                            expected_columns: old(self).nb_columns,
                            actual_lines: 1,
                            actual_columns: values.len(),
                        })
                    }
                },
            },
    {
        if i >= self.nb_lines {
            return Err(MatrixError::OutOfRange { index: i, bound: self.nb_lines });
        }
        if values.len() != self.nb_columns {
            return Err(
                MatrixError::ShapeMismatch {
                    expected_lines: 1,
                    expected_columns: self.nb_columns,
                    actual_lines: 1,
                    actual_columns: values.len(),
                },
            );
        }
        let ghost orig = *self;
        let mut j: usize = 0;
        while j < self.nb_columns
            invariant
                self.wf(),
                orig.wf(),
                i < self.nb_lines,
                self.nb_lines == orig.nb_lines,
                self.nb_columns == orig.nb_columns,
                values@.len() == self.nb_columns,
                j <= self.nb_columns,
                forall|t: int| 0 <= t < j ==> self.ent(i as int, t) == values@[t],
                forall|k: int|
                    0 <= k < self.data@.len() && !(i as int * self.nb_columns as int <= k < i as int
                        * self.nb_columns as int + j) ==> self.data@[k] == orig.data@[k],
            decreases self.nb_columns - j,
        {
            let ghost before = *self;
            self.set(i, j, values[j]);
            proof {
                lemma_offset_in_bounds(
                    i as int,
                    j as int,
                    self.nb_lines as int,
                    self.nb_columns as int,
                );
                assert forall|t: int| 0 <= t < j + 1 implies self.ent(i as int, t) == values@[t] by {
                    lemma_offset_in_bounds(
                        i as int,
                        t,
                        self.nb_lines as int,
                        self.nb_columns as int,
                    );
                }
            }
            j = j + 1;
        }
        proof {
            lemma_row_view_unfold(*self, i as int);
            assert(self.row_view(i as int) =~= values@);
            assert(i as int * self.nb_columns as int + self.nb_columns as int == (i as int + 1)
                * self.nb_columns as int) by (nonlinear_arith);
        }
        Ok(())
    }

    /// A deep copy that shares no storage with the original.
    pub fn deep_clone(&self) -> (r: Matrix)
        requires
            self.wf(),
        ensures
            r.wf(),
            r.nb_lines == self.nb_lines,
            r.nb_columns == self.nb_columns,
            r.data@ == self.data@,
    {
        let mut data: Vec<i64> = Vec::new();
        let mut k: usize = 0;
        while k < self.data.len()
            invariant
                k <= self.data@.len(),
                data@.len() == k,
                forall|t: int| 0 <= t < k ==> data@[t] == self.data@[t],
            decreases self.data@.len() - k,
        {
            data.push(self.data[k]);
            k = k + 1;
        }
        proof {
            assert(data@ =~= self.data@);
        }
        Matrix { nb_lines: self.nb_lines, nb_columns: self.nb_columns, data }
    }

    /// The transpose: a `nb_columns x nb_lines` matrix whose element
    /// `(j, i)` is this matrix's element `(i, j)`.
    pub fn transpose(&self) -> (r: Matrix)
        requires
            self.wf(),
        ensures
            r.wf(),
            r.nb_lines == self.nb_columns,
            r.nb_columns == self.nb_lines,
            forall|i: int, j: int|
                0 <= i < self.nb_lines && 0 <= j < self.nb_columns ==> r.ent(j, i) == self.ent(
                    i,
                    j,
                ),
    {
        let rows = self.nb_columns;
        let cols = self.nb_lines;
        let mut data: Vec<i64> = Vec::new();
        let mut j: usize = 0;
        while j < rows
            invariant
                self.wf(),
                rows == self.nb_columns,
                cols == self.nb_lines,
                j <= rows,
                data@.len() == j as int * cols as int,
                forall|a: int, b: int|
                    0 <= a < j && 0 <= b < cols ==> data@[a * cols as int + b] == self.ent(b, a),
            decreases rows - j,
        {
            let mut i: usize = 0;
            while i < cols
                invariant
                    self.wf(),
                    rows == self.nb_columns,
                    cols == self.nb_lines,
                    j < rows,
                    i <= cols,
                    data@.len() == j as int * cols as int + i as int,
                    forall|a: int, b: int|
                        0 <= a < j && 0 <= b < cols ==> data@[a * cols as int + b] == self.ent(
                            b,
                            a,
                        ),
                    forall|b: int| 0 <= b < i ==> data@[j as int * cols as int + b] == self.ent(b, j as int),
                decreases cols - i,
            {
                let value = self.get(i, j);
                data.push(value);
                proof {
                    assert forall|a: int, b: int| 0 <= a < j && 0 <= b < cols implies data@[a
                        * cols as int + b] == self.ent(b, a) by {
                        lemma_offset_in_bounds(a, b, j as int, cols as int);
                    }
                }
                i = i + 1;
            }
            j = j + 1;
            proof {
                assert(data@.len() == j as int * cols as int) by (nonlinear_arith)
                    requires
                        data@.len() == (j as int - 1) * cols as int + cols as int,
                ;
            }
        }
        let r = Matrix { nb_lines: rows, nb_columns: cols, data };
        proof {
            assert forall|i: int, j2: int|
                0 <= i < self.nb_lines && 0 <= j2 < self.nb_columns implies r.ent(j2, i)
                == self.ent(i, j2) by {
                lemma_offset_in_bounds(j2, i, rows as int, cols as int);
            }
        }
        r
    }
}

impl PartialEq for Matrix {
    /// Two matrices are equal when their shapes agree and their elements
    /// compare equal in storage order.
    fn eq(&self, other: &Matrix) -> (r: bool) {
        if self.nb_lines != other.nb_lines || self.nb_columns != other.nb_columns {
            return false;
        }
        if self.data.len() != other.data.len() {
            return false;
        }
        let mut k: usize = 0;
        while k < self.data.len()
            invariant
                k <= self.data@.len(),
                self.data@.len() == other.data@.len(),
                forall|t: int| 0 <= t < k ==> self.data@[t] == other.data@[t],
            decreases self.data@.len() - k,
        {
            if self.data[k] != other.data[k] {
                return false;
            }
            k = k + 1;
        }
        proof {
            assert(self.data@ =~= other.data@);
        }
        true
    }
}

impl vstd::std_specs::cmp::PartialEqSpecImpl for Matrix {
    open spec fn obeys_eq_spec() -> bool {
        true
    }

    open spec fn eq_spec(&self, other: &Matrix) -> bool {
        self.nb_lines == other.nb_lines && self.nb_columns == other.nb_columns && self.data@
            == other.data@
    }
}

impl Eq for Matrix {

}

} // verus!
