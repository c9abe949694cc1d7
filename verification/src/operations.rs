//! Shape-checked arithmetic: elementwise and broadcasting addition,
//! negation, scalar operations, the Hadamard product, matrix
//! multiplication, mapping, and the row/column sum reductions.

use vstd::prelude::*;

use crate::Matrix;
use crate::error::MatrixError;
use crate::zero_value;
use crate::iterators::MatrixIntoIterator;
use crate::iterators::MatrixMutRefIterator;
use vstd::arithmetic::div_mod::lemma_div_is_ordered;
use vstd::arithmetic::div_mod::lemma_fundamental_div_mod;
use vstd::arithmetic::div_mod::lemma_fundamental_div_mod_converse;
use vstd::arithmetic::div_mod::lemma_mod_division_less_than_divisor;
use vstd::arithmetic::div_mod::lemma_div_is_ordered_by_denominator;
use vstd::arithmetic::div_mod::lemma_div_nonincreasing;
use vstd::arithmetic::div_mod::lemma_div_pos_is_pos;

verus! {

broadcast use vstd::std_specs::vec::group_vec_axioms;

/// Every elementwise sum of two equally long stores fits in the element
/// type.
pub open spec fn elementwise_sum_in_range(a: Matrix, b: Matrix) -> bool {
    forall|k: int|
        0 <= k < a.data@.len() ==> i64::MIN <= #[trigger] a.data@[k] + b.data@[k] <= i64::MAX
}

/// The shape-mismatch report for an elementwise operation: the receiver's
/// shape was expected, the argument's shape was found.
pub open spec fn shape_mismatch(a: Matrix, b: Matrix) -> MatrixError {
    MatrixError::ShapeMismatch {
        expected_lines: a.nb_lines,
        expected_columns: a.nb_columns,
        actual_lines: b.nb_lines,
        actual_columns: b.nb_columns,
    }
}

impl Matrix {
    /// Elementwise sum. Succeeds exactly when the shapes agree, and then
    /// every element of the result is the sum of the operands' elements
    /// at the same position; otherwise reports the mismatched shapes.
    pub fn add(&self, rhs: &Matrix) -> (r: Result<Matrix, MatrixError>)
        requires
            self.wf(),
            rhs.wf(),
            self.same_shape(*rhs) ==> elementwise_sum_in_range(*self, *rhs),
        ensures
            match r {
                Ok(m) => {
                    &&& self.same_shape(*rhs)
                    &&& m.wf()
                    &&& m.nb_lines == self.nb_lines
                    &&& m.nb_columns == self.nb_columns
                    &&& m.data@.len() == self.data@.len()
                    &&& forall|k: int|
                        0 <= k < m.data@.len() ==> m.data@[k] == self.data@[k] + rhs.data@[k]
                },
                Err(e) => !self.same_shape(*rhs) && e == shape_mismatch(*self, *rhs),
            },
    {
        if self.nb_lines != rhs.nb_lines || self.nb_columns != rhs.nb_columns {
            return Err(
                MatrixError::ShapeMismatch {
                    expected_lines: self.nb_lines,
                    expected_columns: self.nb_columns,
                    actual_lines: rhs.nb_lines,
                    actual_columns: rhs.nb_columns,
                },
            );
        }
        let len = self.data.len();
        let mut data: Vec<i64> = Vec::new();
        let mut k: usize = 0;
        while k < len
            invariant
                self.wf(),
                rhs.wf(),
                self.same_shape(*rhs),
                elementwise_sum_in_range(*self, *rhs),
                len == self.data@.len(),
                rhs.data@.len() == len,
                k <= len,
                data@.len() == k,
                forall|t: int| 0 <= t < k ==> data@[t] == self.data@[t] + rhs.data@[t],
            decreases len - k,
        {
            let v = self.data[k] + rhs.data[k];
            data.push(v);
            k = k + 1;
        }
        Ok(Matrix { nb_lines: self.nb_lines, nb_columns: self.nb_columns, data })
    }

    /// [`Matrix::add`] with both operands consumed.
    pub fn add_owned(self, rhs: Matrix) -> (r: Result<Matrix, MatrixError>)
        requires
            self.wf(),
            rhs.wf(),
            self.same_shape(rhs) ==> elementwise_sum_in_range(self, rhs),
        ensures
            match r {
                Ok(m) => {
                    &&& self.same_shape(rhs)
                    &&& m.wf()
                    &&& m.nb_lines == self.nb_lines
                    &&& m.nb_columns == self.nb_columns
                    &&& m.data@.len() == self.data@.len()
                    &&& forall|k: int|
                        0 <= k < m.data@.len() ==> m.data@[k] == self.data@[k] + rhs.data@[k]
                },
                Err(e) => !self.same_shape(rhs) && e == shape_mismatch(self, rhs),
            },
    {
        self.add(&rhs)
    }

    /// [`Matrix::add`] with the receiver consumed and the argument
    /// borrowed.
    pub fn add_owned_ref(self, rhs: &Matrix) -> (r: Result<Matrix, MatrixError>)
        requires
            self.wf(),
            rhs.wf(),
            self.same_shape(*rhs) ==> elementwise_sum_in_range(self, *rhs),
        ensures
            match r {
                Ok(m) => {
                    &&& self.same_shape(*rhs)
                    &&& m.wf()
                    &&& m.nb_lines == self.nb_lines
                    &&& m.nb_columns == self.nb_columns
                    &&& m.data@.len() == self.data@.len()
                    &&& forall|k: int|
                        0 <= k < m.data@.len() ==> m.data@[k] == self.data@[k] + rhs.data@[k]
                },
                Err(e) => !self.same_shape(*rhs) && e == shape_mismatch(self, *rhs),
            },
    {
        self.add(rhs)
    }

    /// [`Matrix::add`] with the receiver borrowed and the argument
    /// consumed.
    pub fn add_ref_owned(&self, rhs: Matrix) -> (r: Result<Matrix, MatrixError>)
        requires
            self.wf(),
            rhs.wf(),
            self.same_shape(rhs) ==> elementwise_sum_in_range(*self, rhs),
        ensures
            match r {
                Ok(m) => {
                    &&& self.same_shape(rhs)
                    &&& m.wf()
                    &&& m.nb_lines == self.nb_lines
                    &&& m.nb_columns == self.nb_columns
                    &&& m.data@.len() == self.data@.len()
                    &&& forall|k: int|
                        0 <= k < m.data@.len() ==> m.data@[k] == self.data@[k] + rhs.data@[k]
                },
                Err(e) => !self.same_shape(rhs) && e == shape_mismatch(*self, rhs),
            },
    {
        self.add(&rhs)
    }

    /// Elementwise sum in place. Succeeds exactly when the shapes agree;
    /// on a mismatch the receiver is left untouched and the mismatched
    /// shapes are reported.
    pub fn add_assign(&mut self, rhs: &Matrix) -> (r: Result<(), MatrixError>)
        requires
            old(self).wf(),
            rhs.wf(),
            old(self).same_shape(*rhs) ==> elementwise_sum_in_range(*old(self), *rhs),
        ensures
            final(self).wf(),
            final(self).nb_lines == old(self).nb_lines,
            final(self).nb_columns == old(self).nb_columns,
            match r {
                Ok(()) => {
                    &&& old(self).same_shape(*rhs)
                    &&& forall|k: int|
                        0 <= k < final(self).data@.len() ==> final(self).data@[k] == old(
                            self,
                        ).data@[k] + rhs.data@[k]
                },
                Err(e) => {
                    &&& !old(self).same_shape(*rhs)
                    &&& *final(self) == *old(self)
                    &&& e == shape_mismatch(*old(self), *rhs)
                },
            },
    {
        if self.nb_lines != rhs.nb_lines || self.nb_columns != rhs.nb_columns {
            return Err(
                MatrixError::ShapeMismatch {
                    expected_lines: self.nb_lines,
                    expected_columns: self.nb_columns,
                    actual_lines: rhs.nb_lines,
                    actual_columns: rhs.nb_columns,
                },
            );
        }
        let len = self.data.len();
        let mut k: usize = 0;
        while k < len
            invariant
                self.wf(),
                rhs.wf(),
                self.nb_lines == old(self).nb_lines,
                self.nb_columns == old(self).nb_columns,
                self.same_shape(*rhs),
                elementwise_sum_in_range(*old(self), *rhs),
                len == self.data@.len(),
                old(self).data@.len() == len,
                rhs.data@.len() == len,
                k <= len,
                forall|t: int| 0 <= t < k ==> self.data@[t] == old(self).data@[t] + rhs.data@[t],
                forall|t: int| k <= t < len ==> self.data@[t] == old(self).data@[t],
            decreases len - k,
        {
            let v = self.data[k] + rhs.data[k];
            self.data.set(k, v);
            k = k + 1;
        }
        Ok(())
    }
}

/// No element is the one value whose negation overflows.
pub open spec fn negation_in_range(a: Matrix) -> bool {
    forall|k: int| 0 <= k < a.data@.len() ==> a.data@[k] != i64::MIN
}

/// Every element times the scalar fits in the element type.
pub open spec fn scalar_product_in_range(a: Matrix, s: i64) -> bool {
    forall|k: int| 0 <= k < a.data@.len() ==> i64::MIN <= #[trigger] (a.data@[k] * s) <= i64::MAX
}

/// Rust's truncating quotient, written over the mathematical (Euclidean)
/// one: the magnitudes are divided and the signs reattached.
pub open spec fn trunc_div(a: int, d: int) -> int {
    if a == 0 {
        0
    } else if a > 0 && d > 0 {
        a / d
    } else if a < 0 && d < 0 {
        (a * -1) / (d * -1)
    } else if a < 0 {
        ((a * -1) / d) * -1
    } else {
        (a / (d * -1)) * -1
    }
}

/// Every elementwise product of two equally long stores fits in the
/// element type.
pub open spec fn elementwise_product_in_range(a: Matrix, b: Matrix) -> bool {
    forall|k: int|
        0 <= k < a.data@.len() ==> i64::MIN <= #[trigger] (a.data@[k] * b.data@[k]) <= i64::MAX
}

/// A truncating quotient of two elements stays in the element type as
/// long as the divisor is not zero and the one overflowing pair (the
/// smallest element divided by minus one) is excluded.
proof fn lemma_trunc_div_in_range(a: int, d: int)
    requires
        i64::MIN <= a <= i64::MAX,
        i64::MIN <= d <= i64::MAX,
        d != 0,
        !(a == i64::MIN && d == -1),
    ensures
        i64::MIN <= trunc_div(a, d) <= i64::MAX,
{
    if a == 0 {
    } else if a > 0 && d > 0 {
        lemma_div_pos_is_pos(a, d);
        lemma_div_nonincreasing(a, d);
    } else if a < 0 && d < 0 {
        let x = a * -1;
        let y = d * -1;
        lemma_div_pos_is_pos(x, y);
        if y == 1 {
            lemma_div_nonincreasing(x, y);
        } else {
            lemma_div_is_ordered_by_denominator(x, 2, y);
            lemma_div_is_ordered(x, i64::MAX + 1, 2);
            lemma_div_nonincreasing(x / 2, 1);
        }
    } else if a < 0 {
        let x = a * -1;
        lemma_div_pos_is_pos(x, d);
        lemma_div_nonincreasing(x, d);
    } else {
        let y = d * -1;
        lemma_div_pos_is_pos(a, y);
        lemma_div_nonincreasing(a, y);
    }
}

impl Matrix {
    /// Apply `f` to every element, producing a matrix of the same shape
    /// whose element at each position is an output of `f` on the input's
    /// element there. The traversal consumes the matrix through the
    /// owning protocol.
    pub fn map<F: Fn(i64) -> i64>(self, f: F) -> (r: Matrix)
        requires
            self.wf(),
            forall|k: int| 0 <= k < self.data@.len() ==> call_requires(f, (self.data@[k],)),
        ensures
            r.wf(),
            r.nb_lines == self.nb_lines,
            r.nb_columns == self.nb_columns,
            r.data@.len() == self.data@.len(),
            forall|k: int|
                0 <= k < r.data@.len() ==> call_ensures(f, (self.data@[k],), #[trigger] r.data@[k]),
    {
        let nb_lines = self.nb_lines;
        let nb_columns = self.nb_columns;
        let ghost orig = self;
        let mut it = MatrixIntoIterator::new(self);
        let mut data: Vec<i64> = Vec::new();
        loop
            invariant_except_break
                it.data@ == orig.data@,
                it.index <= orig.data@.len(),
                data@.len() == it.index,
                forall|k: int| 0 <= k < orig.data@.len() ==> call_requires(f, (orig.data@[k],)),
                forall|k: int|
                    0 <= k < it.index ==> call_ensures(f, (orig.data@[k],), #[trigger] data@[k]),
            ensures
                data@.len() == orig.data@.len(),
                forall|k: int|
                    0 <= k < data@.len() ==> call_ensures(f, (orig.data@[k],), #[trigger] data@[k]),
            decreases orig.data@.len() - it.index,
        {
            match it.next() {
                Some(v) => {
                    let w = f(v);
                    data.push(w);
                },
                None => { break ; },
            }
        }
        Matrix { nb_lines, nb_columns, data }
    }

    /// Elementwise negation, shape preserved.
    pub fn neg(self) -> (r: Matrix)
        requires
            self.wf(),
            negation_in_range(self),
        ensures
            r.wf(),
            r.nb_lines == self.nb_lines,
            r.nb_columns == self.nb_columns,
            r.data@.len() == self.data@.len(),
            forall|k: int| 0 <= k < r.data@.len() ==> r.data@[k] == -self.data@[k],
    {
        let f = |a: i64| -> (b: i64)
            requires
                a != i64::MIN,
            ensures
                b == -a,
            {
                -a
            };
        self.map(f)
    }

    /// Elementwise product with a single scalar, shape preserved.
    pub fn scalar_mul(self, rhs: i64) -> (r: Matrix)
        requires
            self.wf(),
            scalar_product_in_range(self, rhs),
        ensures
            r.wf(),
            r.nb_lines == self.nb_lines,
            r.nb_columns == self.nb_columns,
            r.data@.len() == self.data@.len(),
            forall|k: int| 0 <= k < r.data@.len() ==> r.data@[k] == self.data@[k] * rhs,
    {
        let f = |a: i64| -> (b: i64)
            requires
                i64::MIN <= a * rhs <= i64::MAX,
            ensures
                b == a * rhs,
            {
                a * rhs
            };
        self.map(f)
    }

    /// Elementwise truncating quotient by a single scalar, shape
    /// preserved. The divisor must not be zero, and the one pair whose
    /// quotient overflows the element type is excluded.
    pub fn scalar_div(self, rhs: i64) -> (r: Matrix)
        requires
            self.wf(),
            rhs != 0,
            rhs == -1 ==> negation_in_range(self),
        ensures
            r.wf(),
            r.nb_lines == self.nb_lines,
            r.nb_columns == self.nb_columns,
            r.data@.len() == self.data@.len(),
            forall|k: int|
                0 <= k < r.data@.len() ==> #[trigger] r.data@[k] as int == trunc_div(
                    self.data@[k] as int,
                    rhs as int,
                ),
    {
        let f = |a: i64| -> (b: i64)
            requires
                rhs != 0,
                !(a == i64::MIN && rhs == -1),
            ensures
                b as int == trunc_div(a as int, rhs as int),
            {
                proof {
                    lemma_trunc_div_in_range(a as int, rhs as int);
                }
                match a.checked_div(rhs) {
                    Some(b) => b,
                    None => {
                        proof {
                            assert(false);
                        }
                        0
                    },
                }
            };
        self.map(f)
    }

    /// The Hadamard (elementwise, not matrix) product. Succeeds exactly
    /// when the shapes agree; otherwise reports the mismatched shapes.
    pub fn hadamard(self, rhs: Matrix) -> (r: Result<Matrix, MatrixError>)
        requires
            self.wf(),
            rhs.wf(),
            self.same_shape(rhs) ==> elementwise_product_in_range(self, rhs),
        ensures
            match r {
                Ok(m) => {
                    &&& self.same_shape(rhs)
                    &&& m.wf()
                    &&& m.nb_lines == self.nb_lines
                    &&& m.nb_columns == self.nb_columns
                    &&& m.data@.len() == self.data@.len()
                    &&& forall|k: int|
                        0 <= k < m.data@.len() ==> m.data@[k] == self.data@[k] * rhs.data@[k]
                },
                Err(e) => !self.same_shape(rhs) && e == shape_mismatch(self, rhs),
            },
    {
        if self.nb_lines != rhs.nb_lines || self.nb_columns != rhs.nb_columns {
            return Err(
                MatrixError::ShapeMismatch {
                    expected_lines: self.nb_lines,
                    expected_columns: self.nb_columns,
                    actual_lines: rhs.nb_lines,
                    actual_columns: rhs.nb_columns,
                },
            );
        }
        let len = self.data.len();
        let mut data: Vec<i64> = Vec::new();
        let mut k: usize = 0;
        while k < len
            invariant
                self.wf(),
                rhs.wf(),
                self.same_shape(rhs),
                elementwise_product_in_range(self, rhs),
                len == self.data@.len(),
                rhs.data@.len() == len,
                k <= len,
                data@.len() == k,
                forall|t: int| 0 <= t < k ==> data@[t] == self.data@[t] * rhs.data@[t],
            decreases len - k,
        {
            let v = self.data[k] * rhs.data[k];
            data.push(v);
            k = k + 1;
        }
        Ok(Matrix { nb_lines: self.nb_lines, nb_columns: self.nb_columns, data })
    }
}

/// The first `n` terms of the dot product of row `i` of `a` with column
/// `j` of `b`, folded from the additive identity.
pub open spec fn mul_entry_prefix(a: Matrix, b: Matrix, i: int, j: int, n: int) -> int
    decreases n,
{
    if n <= 0 {
        0
    } else {
        mul_entry_prefix(a, b, i, j, n - 1) + a.ent(i, n - 1) * b.ent(n - 1, j)
    }
}

/// Element `(i, j)` of the matrix product of `a` and `b`.
pub open spec fn mul_entry(a: Matrix, b: Matrix, i: int, j: int) -> int {
    mul_entry_prefix(a, b, i, j, a.nb_columns as int)
}

/// Every term and every partial sum of the product's accumulations fits
/// in the element type.
pub open spec fn mul_in_range(a: Matrix, b: Matrix) -> bool {
    forall|i: int, j: int, n: int|
        0 <= i < a.nb_lines && 0 <= j < b.nb_columns && 0 <= n <= a.nb_columns ==> {
            &&& i64::MIN <= #[trigger] mul_entry_prefix(a, b, i, j, n) <= i64::MAX
            &&& (n < a.nb_columns ==> i64::MIN <= a.ent(i, n) * b.ent(n, j) <= i64::MAX)
        }
}

impl Matrix {
    /// The matrix product. Succeeds exactly when this matrix's column
    /// count equals `rhs`'s row count; the result is `nb_lines x
    /// rhs.nb_columns` and its element `(i, j)` is the dot product of
    /// row `i` with column `j`, accumulated from the additive identity.
    /// On a mismatch the expected and found inner dimensions are
    /// reported.
    pub fn mul(&self, rhs: &Matrix) -> (r: Result<Matrix, MatrixError>)
        requires
            self.wf(),
            rhs.wf(),
            self.nb_columns == rhs.nb_lines ==> mul_in_range(*self, *rhs),
            self.nb_columns == rhs.nb_lines ==> self.nb_lines as int * rhs.nb_columns as int
                <= usize::MAX,
        ensures
            match r {
                Ok(m) => {
                    &&& self.nb_columns == rhs.nb_lines
                    &&& m.wf()
                    &&& m.nb_lines == self.nb_lines
                    &&& m.nb_columns == rhs.nb_columns
                    &&& forall|i: int, j: int|
                        0 <= i < m.nb_lines && 0 <= j < m.nb_columns ==> #[trigger] m.ent(
                            i,
                            j,
                        ) as int == mul_entry(*self, *rhs, i, j)
                },
                Err(e) => self.nb_columns != rhs.nb_lines && e == (MatrixError::ShapeMismatch {
                    expected_lines: self.nb_columns,
                    expected_columns: rhs.nb_columns,
                    actual_lines: rhs.nb_lines,
                    actual_columns: rhs.nb_columns,
                }),
            },
    {
        if self.nb_columns != rhs.nb_lines {
            return Err(
                MatrixError::ShapeMismatch {
                    expected_lines: self.nb_columns,
                    expected_columns: rhs.nb_columns,
                    actual_lines: rhs.nb_lines,
                    actual_columns: rhs.nb_columns,
                },
            );
        }
        let rows = self.nb_lines;
        let inner = self.nb_columns;
        let cols = rhs.nb_columns;
        let mut data: Vec<i64> = Vec::new();
        let mut i: usize = 0;
        while i < rows
            invariant
                self.wf(),
                rhs.wf(),
                mul_in_range(*self, *rhs),
                rows == self.nb_lines,
                inner == self.nb_columns,
                inner == rhs.nb_lines,
                cols == rhs.nb_columns,
                i <= rows,
                data@.len() == i as int * cols as int,
                forall|a: int, b: int|
                    0 <= a < i && 0 <= b < cols ==> #[trigger] data@[a * cols as int + b] as int
                        == mul_entry(*self, *rhs, a, b),
            decreases rows - i,
        {
            let mut j: usize = 0;
            while j < cols
                invariant
                    self.wf(),
                    rhs.wf(),
                    mul_in_range(*self, *rhs),
                    rows == self.nb_lines,
                    inner == self.nb_columns,
                    inner == rhs.nb_lines,
                    cols == rhs.nb_columns,
                    i < rows,
                    j <= cols,
                    data@.len() == i as int * cols as int + j as int,
                    forall|a: int, b: int|
                        0 <= a < i && 0 <= b < cols ==> #[trigger] data@[a * cols as int + b] as int
                            == mul_entry(*self, *rhs, a, b),
                    forall|b: int|
                        0 <= b < j ==> #[trigger] data@[i as int * cols as int + b] as int
                            == mul_entry(*self, *rhs, i as int, b),
                decreases cols - j,
            {
                let mut acc = zero_value();
                let mut k: usize = 0;
                while k < inner
                    invariant
                        self.wf(),
                        rhs.wf(),
                        mul_in_range(*self, *rhs),
                        rows == self.nb_lines,
                        inner == self.nb_columns,
                        inner == rhs.nb_lines,
                        cols == rhs.nb_columns,
                        i < rows,
                        j < cols,
                        k <= inner,
                        acc as int == mul_entry_prefix(*self, *rhs, i as int, j as int, k as int),
                    decreases inner - k,
                {
                    let p = self.get(i, k) * rhs.get(k, j);
                    proof {
                        assert(i64::MIN <= mul_entry_prefix(
                            *self,
                            *rhs,
                            i as int,
                            j as int,
                            k as int + 1,
                        ) <= i64::MAX);
                    }
                    acc = acc + p;
                    k = k + 1;
                }
                data.push(acc);
                proof {
                    assert forall|a: int, b: int| 0 <= a < i && 0 <= b < cols implies #[trigger] data@[a
                        * cols as int + b] as int == mul_entry(*self, *rhs, a, b) by {
                        crate::lemma_offset_in_bounds(a, b, i as int, cols as int);
                    }
                }
                j = j + 1;
            }
            i = i + 1;
            proof {
                assert(data@.len() == i as int * cols as int) by (nonlinear_arith)
                    requires
                        data@.len() == (i as int - 1) * cols as int + cols as int,
                ;
            }
        }
        let m = Matrix { nb_lines: rows, nb_columns: cols, data };
        proof {
            assert forall|a: int, b: int|
                0 <= a < m.nb_lines && 0 <= b < m.nb_columns implies #[trigger] m.ent(
                a,
                b,
            ) as int == mul_entry(*self, *rhs, a, b) by {
                crate::lemma_offset_in_bounds(a, b, rows as int, cols as int);
            }
        }
        Ok(m)
    }

    /// [`Matrix::mul`] with both operands consumed.
    pub fn mul_owned(self, rhs: Matrix) -> (r: Result<Matrix, MatrixError>)
        requires
            self.wf(),
            rhs.wf(),
            self.nb_columns == rhs.nb_lines ==> mul_in_range(self, rhs),
            self.nb_columns == rhs.nb_lines ==> self.nb_lines as int * rhs.nb_columns as int
                <= usize::MAX,
        ensures
            match r {
                Ok(m) => {
                    &&& self.nb_columns == rhs.nb_lines
                    &&& m.wf()
                    &&& m.nb_lines == self.nb_lines
                    &&& m.nb_columns == rhs.nb_columns
                    &&& forall|i: int, j: int|
                        0 <= i < m.nb_lines && 0 <= j < m.nb_columns ==> #[trigger] m.ent(
                            i,
                            j,
                        ) as int == mul_entry(self, rhs, i, j)
                },
                Err(e) => self.nb_columns != rhs.nb_lines && e == (MatrixError::ShapeMismatch {
                    expected_lines: self.nb_columns,
                    expected_columns: rhs.nb_columns,
                    actual_lines: rhs.nb_lines,
                    actual_columns: rhs.nb_columns,
                }),
            },
    {
        self.mul(&rhs)
    }

    /// [`Matrix::mul`] with the receiver consumed and the argument
    /// borrowed.
    pub fn mul_owned_ref(self, rhs: &Matrix) -> (r: Result<Matrix, MatrixError>)
        requires
            self.wf(),
            rhs.wf(),
            self.nb_columns == rhs.nb_lines ==> mul_in_range(self, *rhs),
            self.nb_columns == rhs.nb_lines ==> self.nb_lines as int * rhs.nb_columns as int
                <= usize::MAX,
        ensures
            match r {
                Ok(m) => {
                    &&& self.nb_columns == rhs.nb_lines
                    &&& m.wf()
                    &&& m.nb_lines == self.nb_lines
                    &&& m.nb_columns == rhs.nb_columns
                    &&& forall|i: int, j: int|
                        0 <= i < m.nb_lines && 0 <= j < m.nb_columns ==> #[trigger] m.ent(
                            i,
                            j,
                        ) as int == mul_entry(self, *rhs, i, j)
                },
                Err(e) => self.nb_columns != rhs.nb_lines && e == (MatrixError::ShapeMismatch {
                    expected_lines: self.nb_columns,
                    expected_columns: rhs.nb_columns,
                    actual_lines: rhs.nb_lines,
                    actual_columns: rhs.nb_columns,
                }),
            },
    {
        self.mul(rhs)
    }

    /// [`Matrix::mul`] with the receiver borrowed and the argument
    /// consumed.
    pub fn mul_ref_owned(&self, rhs: Matrix) -> (r: Result<Matrix, MatrixError>)
        requires
            self.wf(),
            rhs.wf(),
            self.nb_columns == rhs.nb_lines ==> mul_in_range(*self, rhs),
            self.nb_columns == rhs.nb_lines ==> self.nb_lines as int * rhs.nb_columns as int
                <= usize::MAX,
        ensures
            match r {
                Ok(m) => {
                    &&& self.nb_columns == rhs.nb_lines
                    &&& m.wf()
                    &&& m.nb_lines == self.nb_lines
                    &&& m.nb_columns == rhs.nb_columns
                    &&& forall|i: int, j: int|
                        0 <= i < m.nb_lines && 0 <= j < m.nb_columns ==> #[trigger] m.ent(
                            i,
                            j,
                        ) as int == mul_entry(*self, rhs, i, j)
                },
                Err(e) => self.nb_columns != rhs.nb_lines && e == (MatrixError::ShapeMismatch {
                    expected_lines: self.nb_columns,
                    expected_columns: rhs.nb_columns,
                    actual_lines: rhs.nb_lines,
                    actual_columns: rhs.nb_columns,
                }),
            },
    {
        self.mul(&rhs)
    }
}

/// A row-major offset splits into the row `k / cols` and the column
/// `k % cols`.
pub proof fn lemma_flat_index_decompose(k: int, rows: int, cols: int)
    requires
        0 <= rows,
        0 <= cols,
        0 <= k < rows * cols,
    ensures
        cols > 0,
        0 <= k / cols < rows,
        0 <= k % cols < cols,
        k == (k / cols) * cols + (k % cols),
{
    assert(cols > 0) by (nonlinear_arith)
        requires
            0 <= rows,
            0 <= cols,
            0 <= k < rows * cols,
    ;
    lemma_fundamental_div_mod(k, cols);
    lemma_mod_division_less_than_divisor(k, cols);
    lemma_div_pos_is_pos(k, cols);
    assert((k / cols) * cols == cols * (k / cols)) by (nonlinear_arith);
    assert(k / cols < rows) by (nonlinear_arith)
        requires
            k == cols * (k / cols) + (k % cols),
            0 <= k % cols < cols,
            0 <= k < rows * cols,
            cols > 0,
            0 <= k / cols,
    ;
}

/// Conversely, the offset of row `i` and column `j` divides back into
/// `i` and `j`.
pub proof fn lemma_offset_div_mod(i: int, j: int, cols: int)
    requires
        0 <= i,
        0 <= j < cols,
    ensures
        (i * cols + j) % cols == j,
        (i * cols + j) / cols == i,
{
    assert(0 <= i * cols + j) by (nonlinear_arith)
        requires
            0 <= i,
            0 <= j,
            j < cols,
    ;
    lemma_fundamental_div_mod_converse(i * cols + j, cols, i, j);
}

/// Every element plus its column's entry of the single row fits in the
/// element type.
pub open spec fn row_broadcast_sum_in_range(a: Matrix, line: Matrix) -> bool {
    forall|i: int, j: int|
        0 <= i < a.nb_lines && 0 <= j < a.nb_columns ==> i64::MIN <= #[trigger] (a.ent(i, j)
            + line.ent(0, j)) <= i64::MAX
}

/// Every element plus its row's entry of the single column fits in the
/// element type.
pub open spec fn col_broadcast_sum_in_range(a: Matrix, col: Matrix) -> bool {
    forall|i: int, j: int|
        0 <= i < a.nb_lines && 0 <= j < a.nb_columns ==> i64::MIN <= #[trigger] (a.ent(i, j)
            + col.ent(i, 0)) <= i64::MAX
}

impl Matrix {
    /// Add a single-row matrix to every row, in place on the consumed
    /// receiver. Succeeds exactly when `rhs` has one row and the same
    /// column count; otherwise the receiver comes back unchanged beside
    /// the mismatched shapes.
    pub fn add_to_lines(self, rhs: &Matrix) -> (r: Result<Matrix, MatrixError>)
        requires
            self.wf(),
            rhs.wf(),
            rhs.nb_lines == 1 && rhs.nb_columns == self.nb_columns ==> row_broadcast_sum_in_range(
                self,
                *rhs,
            ),
        ensures
            match r {
                Ok(m) => {
                    &&& rhs.nb_lines == 1
                    &&& rhs.nb_columns == self.nb_columns
                    &&& m.wf()
                    &&& m.nb_lines == self.nb_lines
                    &&& m.nb_columns == self.nb_columns
                    &&& forall|i: int, j: int|
                        0 <= i < m.nb_lines && 0 <= j < m.nb_columns ==> #[trigger] m.ent(i, j)
                            == self.ent(i, j) + rhs.ent(0, j)
                },
                Err(e) => {
                    &&& !(rhs.nb_lines == 1 && rhs.nb_columns == self.nb_columns)
                    &&& e == (MatrixError::ShapeMismatch {
                        expected_lines: 1,
                        expected_columns: self.nb_columns,
                        actual_lines: rhs.nb_lines,
                        actual_columns: rhs.nb_columns,
                    })
                },
            },
    {
        if rhs.nb_lines != 1 || rhs.nb_columns != self.nb_columns {
            return Err(
                MatrixError::ShapeMismatch {
                    expected_lines: 1,
                    expected_columns: self.nb_columns,
                    actual_lines: rhs.nb_lines,
                    actual_columns: rhs.nb_columns,
                },
            );
        }
        let ghost orig = self;
        let rows = self.nb_lines;
        let cols = self.nb_columns;
        let mut it = MatrixMutRefIterator::new(self);
        while it.has_next()
            invariant
                orig.wf(),
                rhs.wf(),
                rhs.nb_lines == 1,
                rhs.nb_columns == cols,
                rows == orig.nb_lines,
                cols == orig.nb_columns,
                row_broadcast_sum_in_range(orig, *rhs),
                it.matrix.nb_lines == rows,
                it.matrix.nb_columns == cols,
                it.matrix.data@.len() == orig.data@.len(),
                it.index <= orig.data@.len(),
                forall|t: int|
                    0 <= t < it.index ==> #[trigger] it.matrix.data@[t] == orig.data@[t]
                        + rhs.data@[t % cols as int],
                forall|t: int|
                    it.index <= t < orig.data@.len() ==> #[trigger] it.matrix.data@[t]
                        == orig.data@[t],
            decreases orig.data@.len() - it.index,
        {
            let k = it.index;
            proof {
                lemma_flat_index_decompose(k as int, rows as int, cols as int);
            }
            let j = k % cols;
            let b = rhs.get(0, j);
            let a = it.read();
            proof {
                assert(orig.ent(k as int / cols as int, k as int % cols as int)
                    == orig.data@[k as int]);
                assert(rhs.ent(0, j as int) == rhs.data@[j as int]);
            }
            it.write(a + b);
            it.advance();
        }
        let m = it.finish();
        proof {
            assert forall|i: int, j: int|
                0 <= i < m.nb_lines && 0 <= j < m.nb_columns implies #[trigger] m.ent(i, j)
                == orig.ent(i, j) + rhs.ent(0, j) by {
                crate::lemma_offset_in_bounds(i, j, rows as int, cols as int);
                lemma_offset_div_mod(i, j, cols as int);
            }
        }
        Ok(m)
    }

    /// Add a single-column matrix to every column, in place on the
    /// consumed receiver. Succeeds exactly when `rhs` has one column and
    /// the same row count; otherwise the receiver comes back unchanged
    /// beside the mismatched shapes.
    pub fn add_to_columns(self, rhs: &Matrix) -> (r: Result<Matrix, MatrixError>)
        requires
            self.wf(),
            rhs.wf(),
            rhs.nb_columns == 1 && rhs.nb_lines == self.nb_lines ==> col_broadcast_sum_in_range(
                self,
                *rhs,
            ),
        ensures
            match r {
                Ok(m) => {
                    &&& rhs.nb_columns == 1
                    &&& rhs.nb_lines == self.nb_lines
                    &&& m.wf()
                    &&& m.nb_lines == self.nb_lines
                    &&& m.nb_columns == self.nb_columns
                    &&& forall|i: int, j: int|
                        0 <= i < m.nb_lines && 0 <= j < m.nb_columns ==> #[trigger] m.ent(i, j)
                            == self.ent(i, j) + rhs.ent(i, 0)
                },
                Err(e) => {
                    &&& !(rhs.nb_columns == 1 && rhs.nb_lines == self.nb_lines)
                    &&& e == (MatrixError::ShapeMismatch {
                        expected_lines: self.nb_lines,
                        expected_columns: 1,
                        actual_lines: rhs.nb_lines,
                        actual_columns: rhs.nb_columns,
                    })
                },
            },
    {
        if rhs.nb_columns != 1 || rhs.nb_lines != self.nb_lines {
            return Err(
                MatrixError::ShapeMismatch {
                    expected_lines: self.nb_lines,
                    expected_columns: 1,
                    actual_lines: rhs.nb_lines,
                    actual_columns: rhs.nb_columns,
                },
            );
        }
        let ghost orig = self;
        let rows = self.nb_lines;
        let cols = self.nb_columns;
        let mut it = MatrixMutRefIterator::new(self);
        while it.has_next()
            invariant
                orig.wf(),
                rhs.wf(),
                rhs.nb_columns == 1,
                rhs.nb_lines == rows,
                rows == orig.nb_lines,
                cols == orig.nb_columns,
                col_broadcast_sum_in_range(orig, *rhs),
                it.matrix.nb_lines == rows,
                it.matrix.nb_columns == cols,
                it.matrix.data@.len() == orig.data@.len(),
                it.index <= orig.data@.len(),
                forall|t: int|
                    0 <= t < it.index ==> #[trigger] it.matrix.data@[t] == orig.data@[t]
                        + rhs.data@[t / cols as int],
                forall|t: int|
                    it.index <= t < orig.data@.len() ==> #[trigger] it.matrix.data@[t]
                        == orig.data@[t],
            decreases orig.data@.len() - it.index,
        {
            let k = it.index;
            proof {
                lemma_flat_index_decompose(k as int, rows as int, cols as int);
            }
            let i = k / cols;
            let b = rhs.get(i, 0);
            let a = it.read();
            proof {
                assert(orig.ent(k as int / cols as int, k as int % cols as int)
                    == orig.data@[k as int]);
                assert(rhs.ent(i as int, 0) == rhs.data@[i as int]);
            }
            it.write(a + b);
            it.advance();
        }
        let m = it.finish();
        proof {
            assert forall|i: int, j: int|
                0 <= i < m.nb_lines && 0 <= j < m.nb_columns implies #[trigger] m.ent(i, j)
                == orig.ent(i, j) + rhs.ent(i, 0) by {
                crate::lemma_offset_in_bounds(i, j, rows as int, cols as int);
                lemma_offset_div_mod(i, j, cols as int);
            }
        }
        Ok(m)
    }
}

/// The sum of the first `n` entries of column `j`, folded from the
/// additive identity.
pub open spec fn col_sum_prefix(m: Matrix, j: int, n: int) -> int
    decreases n,
{
    if n <= 0 {
        0
    } else {
        col_sum_prefix(m, j, n - 1) + m.ent(n - 1, j)
    }
}

/// The sum over all rows of column `j`.
pub open spec fn col_sum(m: Matrix, j: int) -> int {
    col_sum_prefix(m, j, m.nb_lines as int)
}

/// The sum of the first `n` entries of row `i`, folded from the additive
/// identity.
pub open spec fn row_sum_prefix(m: Matrix, i: int, n: int) -> int
    decreases n,
{
    if n <= 0 {
        0
    } else {
        row_sum_prefix(m, i, n - 1) + m.ent(i, n - 1)
    }
}

/// The sum over all columns of row `i`.
pub open spec fn row_sum(m: Matrix, i: int) -> int {
    row_sum_prefix(m, i, m.nb_columns as int)
}

/// Every partial column sum fits in the element type.
pub open spec fn col_sums_in_range(m: Matrix) -> bool {
    forall|j: int, n: int|
        0 <= j < m.nb_columns && 0 <= n <= m.nb_lines ==> i64::MIN <= #[trigger] col_sum_prefix(
            m,
            j,
            n,
        ) <= i64::MAX
}

/// Every partial row sum fits in the element type.
pub open spec fn row_sums_in_range(m: Matrix) -> bool {
    forall|i: int, n: int|
        0 <= i < m.nb_lines && 0 <= n <= m.nb_columns ==> i64::MIN <= #[trigger] row_sum_prefix(
            m,
            i,
            n,
        ) <= i64::MAX
}

impl Matrix {
    /// Collapse to a single row: column `j` of the result holds the sum
    /// over all rows of column `j`, folded from the additive identity.
    /// Consumes the matrix.
    pub fn sum_line(self) -> (r: Matrix)
        requires
            self.wf(),
            col_sums_in_range(self),
        ensures
            r.wf(),
            r.nb_lines == 1,
            r.nb_columns == self.nb_columns,
            forall|j: int|
                0 <= j < r.nb_columns ==> #[trigger] r.ent(0, j) as int == col_sum(self, j),
    {
        let rows = self.nb_lines;
        let cols = self.nb_columns;
        let mut data: Vec<i64> = Vec::new();
        let z = zero_value();
        let mut j: usize = 0;
        while j < cols
            invariant
                j <= cols,
                data@.len() == j,
                z == 0,
                forall|t: int| 0 <= t < j ==> data@[t] == 0,
            decreases cols - j,
        {
            data.push(z);
            j = j + 1;
        }
        let mut i: usize = 0;
        while i < rows
            invariant
                self.wf(),
                col_sums_in_range(self),
                rows == self.nb_lines,
                cols == self.nb_columns,
                i <= rows,
                data@.len() == cols,
                forall|t: int|
                    0 <= t < cols ==> #[trigger] data@[t] as int == col_sum_prefix(
                        self,
                        t,
                        i as int,
                    ),
            decreases rows - i,
        {
            let mut j2: usize = 0;
            while j2 < cols
                invariant
                    self.wf(),
                    col_sums_in_range(self),
                    rows == self.nb_lines,
                    cols == self.nb_columns,
                    i < rows,
                    j2 <= cols,
                    data@.len() == cols,
                    forall|t: int|
                        0 <= t < j2 ==> #[trigger] data@[t] as int == col_sum_prefix(
                            self,
                            t,
                            i as int + 1,
                        ),
                    forall|t: int|
                        j2 <= t < cols ==> #[trigger] data@[t] as int == col_sum_prefix(
                            self,
                            t,
                            i as int,
                        ),
                decreases cols - j2,
            {
                let v = self.get(i, j2);
                proof {
                    assert(i64::MIN <= col_sum_prefix(self, j2 as int, i as int + 1) <= i64::MAX);
                }
                let s = data[j2] + v;
                data.set(j2, s);
                j2 = j2 + 1;
            }
            i = i + 1;
        }
        let r = Matrix { nb_lines: 1, nb_columns: cols, data };
        proof {
            assert forall|j3: int| 0 <= j3 < r.nb_columns implies #[trigger] r.ent(0, j3) as int
                == col_sum(self, j3) by {
                assert(r.data@[0 * cols as int + j3] == r.data@[j3]);
            }
        }
        r
    }

    /// Collapse to a single column: row `i` of the result holds the sum
    /// over all columns of row `i`, folded from the additive identity.
    /// Consumes the matrix.
    pub fn sum_col(self) -> (r: Matrix)
        requires
            self.wf(),
            row_sums_in_range(self),
        ensures
            r.wf(),
            r.nb_lines == self.nb_lines,
            r.nb_columns == 1,
            forall|i: int| 0 <= i < r.nb_lines ==> #[trigger] r.ent(i, 0) as int == row_sum(self, i),
    {
        let rows = self.nb_lines;
        let cols = self.nb_columns;
        let mut data: Vec<i64> = Vec::new();
        let mut i: usize = 0;
        while i < rows
            invariant
                self.wf(),
                row_sums_in_range(self),
                rows == self.nb_lines,
                cols == self.nb_columns,
                i <= rows,
                data@.len() == i,
                forall|t: int| 0 <= t < i ==> #[trigger] data@[t] as int == row_sum(self, t),
            decreases rows - i,
        {
            let mut acc = zero_value();
            let mut j: usize = 0;
            while j < cols
                invariant
                    self.wf(),
                    row_sums_in_range(self),
                    rows == self.nb_lines,
                    cols == self.nb_columns,
                    i < rows,
                    j <= cols,
                    acc as int == row_sum_prefix(self, i as int, j as int),
                decreases cols - j,
            {
                let v = self.get(i, j);
                proof {
                    assert(i64::MIN <= row_sum_prefix(self, i as int, j as int + 1) <= i64::MAX);
                }
                acc = acc + v;
                j = j + 1;
            }
            data.push(acc);
            i = i + 1;
        }
        let r = Matrix { nb_lines: rows, nb_columns: 1, data };
        proof {
            assert forall|i2: int| 0 <= i2 < r.nb_lines implies #[trigger] r.ent(i2, 0) as int
                == row_sum(self, i2) by {
                assert(r.data@[i2 * 1 + 0] == r.data@[i2]);
            }
        }
        r
    }
}

} // verus!
