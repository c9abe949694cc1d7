//! Structural operations: row selection by index, at random and by
//! boolean mask, partitioning into parts, and concatenation.

use vstd::prelude::*;

use crate::Matrix;
use crate::error::MatrixError;

verus! {

broadcast use vstd::std_specs::vec::group_vec_axioms;

/// Relies on rand's `thread_rng` and `Uniform::new(0, bound)`: each of
/// the `count` drawn indices lies in `[0, bound)`; `Uniform::new` does
/// not return when the range is empty, so `bound` must be positive.
#[verifier::external_body]
fn sample_indices(bound: usize, count: usize) -> (r: Vec<usize>)
    requires
        bound > 0,
    ensures
        r@.len() == count,
        forall|t: int| 0 <= t < count ==> (#[trigger] r@[t]) < bound,
{
    let range = rand::distributions::Uniform::new(0usize, bound);
    rand::Rng::sample_iter(rand::thread_rng(), range).take(count).collect()
}

/// Relies on rand's `thread_rng`: draws `count` arbitrary elements; only
/// their number is promised, nothing of their values.
#[verifier::external_body]
fn sample_values(count: usize) -> (r: Vec<i64>)
    ensures
        r@.len() == count,
{
    let mut rng = rand::thread_rng();
    let mut v: Vec<i64> = Vec::with_capacity(count);
    while v.len() < count {
        v.push(rand::Rng::gen(&mut rng));
    }
    v
}

/// Every selected index names a row of a matrix with `bound` rows.
pub open spec fn indices_in_range(chosen: Seq<usize>, bound: int) -> bool {
    forall|t: int| 0 <= t < chosen.len() ==> (#[trigger] chosen[t] as int) < bound
}

/// Row `t` of `m` is a copy of some row of `source`.
pub open spec fn row_is_row_of(m: Matrix, source: Matrix, t: int) -> bool {
    exists|i: int| 0 <= i < source.nb_lines && m.row_view(t) == #[trigger] source.row_view(i)
}

impl Matrix {
    /// A matrix drawn from the external random source: the shape is
    /// fixed, the element values are whatever the source produced.
    pub fn from_distribution(nb_lines: usize, nb_columns: usize) -> (r: Matrix)
        requires
            nb_lines as int * nb_columns as int <= usize::MAX,
        ensures
            r.wf(),
            r.nb_lines == nb_lines,
            r.nb_columns == nb_columns,
    {
        let data = sample_values(nb_lines * nb_columns);
        Matrix { nb_lines, nb_columns, data }
    }

    /// Gather the rows named by `chosen_lines`, in that order, duplicates
    /// allowed. Succeeds exactly when every index names a row; otherwise
    /// the first index past the last row is reported.
    pub fn chose_lines_by_index(&self, chosen_lines: &Vec<usize>) -> (r: Result<
        Matrix,
        MatrixError,
    >)
        requires
            self.wf(),
        ensures
            match r {
                Ok(m) => {
                    &&& indices_in_range(chosen_lines@, self.nb_lines as int)
                    &&& m.wf()
                    &&& m.nb_lines == chosen_lines@.len()
                    &&& m.nb_columns == self.nb_columns
                    &&& forall|t: int|
                        0 <= t < chosen_lines@.len() ==> #[trigger] m.row_view(t) == self.row_view(
                            chosen_lines@[t] as int,
                        )
                },
                Err(e) => {
                    &&& !indices_in_range(chosen_lines@, self.nb_lines as int)
                    &&& exists|t: int|
                        {
                            &&& 0 <= t < chosen_lines@.len()
                            &&& chosen_lines@[t] >= self.nb_lines
                            &&& forall|s: int|
                                0 <= s < t ==> (#[trigger] chosen_lines@[s]) < self.nb_lines
                            &&& e == (MatrixError::OutOfRange {
                                index: chosen_lines@[t],
                                bound: self.nb_lines,
                            })
                        }
                },
            },
    {
        let count = chosen_lines.len();
        let mut t: usize = 0;
        while t < count
            invariant
                count == chosen_lines@.len(),
                t <= count,
                forall|s: int| 0 <= s < t ==> (#[trigger] chosen_lines@[s]) < self.nb_lines,
            decreases count - t,
        {
            if chosen_lines[t] >= self.nb_lines {
                return Err(
                    MatrixError::OutOfRange { index: chosen_lines[t], bound: self.nb_lines },
                );
            }
            t = t + 1;
        }
        let cols = self.nb_columns;
        let mut data: Vec<i64> = Vec::new();
        let mut k: usize = 0;
        while k < count
            invariant
                self.wf(),
                count == chosen_lines@.len(),
                cols == self.nb_columns,
                indices_in_range(chosen_lines@, self.nb_lines as int),
                k <= count,
                data@.len() == k as int * cols as int,
                forall|a: int|
                    0 <= a < k ==> #[trigger] data@.subrange(
                        a * cols as int,
                        (a + 1) * cols as int,
                    ) == self.row_view(chosen_lines@[a] as int),
            decreases count - k,
        {
            let mut row = match self.line(chosen_lines[k]) {
                Ok(v) => v,
                Err(_) => {
                    proof {
                        assert(false);
                    }
                    Vec::new()
                },
            };
            let ghost before = data@;
            proof {
                crate::lemma_row_view_unfold(*self, chosen_lines@[k as int] as int);
            }
            data.append(&mut row);
            proof {
                assert((k as int + 1) * cols as int == k as int * cols as int + cols as int)
                    by (nonlinear_arith);
                assert forall|a: int| 0 <= a < k + 1 implies #[trigger] data@.subrange(
                    a * cols as int,
                    (a + 1) * cols as int,
                ) == self.row_view(chosen_lines@[a] as int) by {
                    assert(0 <= a * cols as int && a * cols as int <= (a + 1) * cols as int && (a
                        + 1) * cols as int <= (k as int + 1) * cols as int) by (nonlinear_arith)
                        requires
                            0 <= a < k as int + 1,
                            cols as int >= 0,
                    ;
                    if a < k {
                        assert((a + 1) * cols as int <= k as int * cols as int)
                            by (nonlinear_arith)
                            requires
                                a < k as int,
                                cols as int >= 0,
                        ;
                        assert(data@.subrange(a * cols as int, (a + 1) * cols as int)
                            =~= before.subrange(a * cols as int, (a + 1) * cols as int));
                    } else {
                        assert(data@.subrange(a * cols as int, (a + 1) * cols as int)
                            =~= self.row_view(chosen_lines@[a] as int));
                    }
                }
            }
            k = k + 1;
        }
        let m = Matrix { nb_lines: count, nb_columns: cols, data };
        Ok(m)
    }

    /// Select `nb_of_selected_line` rows drawn independently and
    /// uniformly, with replacement, from this matrix's rows. Every row
    /// of the result is a row of this matrix; which ones is up to the
    /// external random source.
    pub fn chose_rnd_lines(&self, nb_of_selected_line: usize) -> (r: Matrix)
        requires
            self.wf(),
            self.nb_lines > 0,
        ensures
            r.wf(),
            r.nb_lines == nb_of_selected_line,
            r.nb_columns == self.nb_columns,
            forall|t: int| 0 <= t < r.nb_lines ==> #[trigger] row_is_row_of(r, *self, t),
    {
        let chosen = sample_indices(self.nb_lines, nb_of_selected_line);
        let m = match self.chose_lines_by_index(&chosen) {
            Ok(m) => m,
            Err(_) => {
                proof {
                    assert(false);
                }
                vstd::pervasive::unreached()
            },
        };
        proof {
            assert forall|t: int| 0 <= t < m.nb_lines implies #[trigger] row_is_row_of(
                m,
                *self,
                t,
            ) by {
                let w = chosen@[t] as int;
                assert(0 <= w < self.nb_lines && m.row_view(t) == self.row_view(w));
            }
        }
        m
    }
}

/// How many of the first `n` mask entries are set.
pub open spec fn count_true(mask: Seq<bool>, n: int) -> int
    decreases n,
{
    if n <= 0 {
        0
    } else {
        count_true(mask, n - 1) + if mask[n - 1] {
            1int
        } else {
            0int
        }
    }
}

/// The elements of the rows among the first `n` whose mask entry is
/// set, in their original order.
pub open spec fn mask_rows_data(m: Matrix, mask: Seq<bool>, n: int) -> Seq<i64>
    decreases n,
{
    if n <= 0 {
        Seq::empty()
    } else {
        mask_rows_data(m, mask, n - 1) + if mask[n - 1] {
            m.row_view(n - 1)
        } else {
            Seq::empty()
        }
    }
}

impl Matrix {
    /// Keep exactly the rows whose mask entry is true, preserving their
    /// order. Succeeds exactly when the mask has one entry per row;
    /// otherwise the mask's length is reported against the shape.
    pub fn chose_lines_by_bool(&self, bools: &Vec<bool>) -> (r: Result<Matrix, MatrixError>)
        requires
            self.wf(),
        ensures
            match r {
                Ok(m) => {
                    &&& bools@.len() == self.nb_lines
                    &&& m.wf()
                    &&& m.nb_columns == self.nb_columns
                    &&& m.nb_lines as int == count_true(bools@, self.nb_lines as int)
                    &&& m.data@ == mask_rows_data(*self, bools@, self.nb_lines as int)
                },
                Err(e) => {
                    &&& bools@.len() != self.nb_lines
                    &&& e == (MatrixError::ShapeMismatch {
                        expected_lines: self.nb_lines,
                        expected_columns: self.nb_columns,
                        actual_lines: bools.len(),
                        actual_columns: self.nb_columns,
                    })
                },
            },
    {
        if bools.len() != self.nb_lines {
            return Err(
                MatrixError::ShapeMismatch {
                    expected_lines: self.nb_lines,
                    expected_columns: self.nb_columns,
                    actual_lines: bools.len(),
                    actual_columns: self.nb_columns,
                },
            );
        }
        let rows = self.nb_lines;
        let cols = self.nb_columns;
        let mut data: Vec<i64> = Vec::new();
        let mut nb_lines: usize = 0;
        let mut i: usize = 0;
        while i < rows
            invariant
                self.wf(),
                rows == self.nb_lines,
                cols == self.nb_columns,
                bools@.len() == rows,
                i <= rows,
                nb_lines <= i,
                nb_lines as int == count_true(bools@, i as int),
                data@ == mask_rows_data(*self, bools@, i as int),
                data@.len() == nb_lines as int * cols as int,
            decreases rows - i,
        {
            if bools[i] {
                let mut row = match self.line(i) {
                    Ok(v) => v,
                    Err(_) => {
                        proof {
                            assert(false);
                        }
                        Vec::new()
                    },
                };
                proof {
                    crate::lemma_row_view_unfold(*self, i as int);
                }
                data.append(&mut row);
                nb_lines = nb_lines + 1;
                proof {
                    assert(nb_lines as int * cols as int == (nb_lines as int - 1) * cols as int
                        + cols as int) by (nonlinear_arith);
                }
            }
            i = i + 1;
        }
        Ok(Matrix { nb_lines, nb_columns: cols, data })
    }
}

/// How many rows part `i` of a split of `rows` rows into `parts` parts
/// receives: the quotient, plus one of the remainder's rows for each of
/// the first `rows % parts` parts.
pub open spec fn part_rows(rows: int, parts: int, i: int) -> int {
    rows / parts + if i < rows % parts {
        1int
    } else {
        0int
    }
}

/// The row at which part `i` of the split begins.
pub open spec fn part_start(rows: int, parts: int, i: int) -> int
    decreases i,
{
    if i <= 0 {
        0
    } else {
        part_start(rows, parts, i - 1) + part_rows(rows, parts, i - 1)
    }
}

/// The closed form of `part_start`: `i` quotients plus the extra rows
/// already handed out.
pub proof fn lemma_part_start_sum(rows: int, parts: int, i: int)
    requires
        1 <= parts,
        0 <= rows,
        0 <= i <= parts,
    ensures
        part_start(rows, parts, i) == i * (rows / parts) + (if i <= rows % parts {
            i
        } else {
            rows % parts
        }),
    decreases i,
{
    vstd::arithmetic::div_mod::lemma_mod_division_less_than_divisor(rows, parts);
    if i == 0 {
        assert(0 * (rows / parts) == 0) by (nonlinear_arith);
    } else {
        lemma_part_start_sum(rows, parts, i - 1);
        assert(i * (rows / parts) == (i - 1) * (rows / parts) + (rows / parts))
            by (nonlinear_arith);
    }
}

/// The parts of a split cover the rows exactly.
pub proof fn lemma_parts_cover(rows: int, parts: int)
    requires
        1 <= parts,
        0 <= rows,
    ensures
        part_start(rows, parts, parts) == rows,
{
    lemma_part_start_sum(rows, parts, parts);
    vstd::arithmetic::div_mod::lemma_fundamental_div_mod(rows, parts);
    vstd::arithmetic::div_mod::lemma_mod_division_less_than_divisor(rows, parts);
    assert(parts * (rows / parts) == (rows / parts) * parts) by (nonlinear_arith);
}

/// No part starts before the first row or after the last.
pub proof fn lemma_part_start_bounds(rows: int, parts: int, i: int)
    requires
        1 <= parts,
        0 <= rows,
        0 <= i <= parts,
    ensures
        0 <= part_start(rows, parts, i) <= rows,
{
    lemma_part_start_sum(rows, parts, i);
    lemma_parts_cover(rows, parts);
    lemma_part_start_sum(rows, parts, parts);
    vstd::arithmetic::div_mod::lemma_div_pos_is_pos(rows, parts);
    vstd::arithmetic::div_mod::lemma_mod_division_less_than_divisor(rows, parts);
    assert(0 <= i * (rows / parts) <= parts * (rows / parts)) by (nonlinear_arith)
        requires
            0 <= i <= parts,
            0 <= rows / parts,
    ;
}

impl Matrix {
    /// Partition the rows into `nb_of_parts` sub-matrices in order, as
    /// equally as possible with the larger parts first: each part gets
    /// the quotient of rows by parts, and the first `rows mod parts`
    /// parts one extra row. Consumes the matrix. Succeeds exactly when
    /// there are at least as many rows as parts.
    pub fn split_lines(self, nb_of_parts: usize) -> (r: Result<Vec<Matrix>, MatrixError>)
        requires
            self.wf(),
            nb_of_parts >= 1,
        ensures
            match r {
                Ok(v) => {
                    &&& nb_of_parts <= self.nb_lines
                    &&& v@.len() == nb_of_parts
                    &&& forall|i: int|
                        0 <= i < nb_of_parts ==> {
                            &&& (#[trigger] v@[i]).wf()
                            &&& v@[i].nb_columns == self.nb_columns
                            &&& v@[i].nb_lines as int == part_rows(
                                self.nb_lines as int,
                                nb_of_parts as int,
                                i,
                            )
                            &&& v@[i].data@ == self.data@.subrange(
                                part_start(self.nb_lines as int, nb_of_parts as int, i)
                                    * self.nb_columns as int,
                                (part_start(self.nb_lines as int, nb_of_parts as int, i)
                                    + part_rows(self.nb_lines as int, nb_of_parts as int, i))
                                    * self.nb_columns as int,
                            )
                        }
                },
                Err(e) => {
                    &&& nb_of_parts > self.nb_lines
                    &&& e == (MatrixError::InvalidPartition {
                        parts: nb_of_parts,
                        lines: self.nb_lines,
                    })
                },
            },
    {
        if nb_of_parts > self.nb_lines {
            return Err(
                MatrixError::InvalidPartition { parts: nb_of_parts, lines: self.nb_lines },
            );
        }
        let rows = self.nb_lines;
        let cols = self.nb_columns;
        let main: usize = rows / nb_of_parts;
        let rem: usize = rows % nb_of_parts;
        let mut res: Vec<Matrix> = Vec::new();
        let mut start: usize = 0;
        let mut i: usize = 0;
        while i < nb_of_parts
            invariant
                self.wf(),
                rows == self.nb_lines,
                cols == self.nb_columns,
                1 <= nb_of_parts <= rows,
                main as int == rows as int / nb_of_parts as int,
                rem as int == rows as int % nb_of_parts as int,
                i <= nb_of_parts,
                res@.len() == i,
                start as int == part_start(rows as int, nb_of_parts as int, i as int),
                start <= rows,
                forall|t: int|
                    0 <= t < i ==> {
                        &&& (#[trigger] res@[t]).wf()
                        &&& res@[t].nb_columns == cols
                        &&& res@[t].nb_lines as int == part_rows(
                            rows as int,
                            nb_of_parts as int,
                            t,
                        )
                        &&& res@[t].data@ == self.data@.subrange(
                            part_start(rows as int, nb_of_parts as int, t) * cols as int,
                            (part_start(rows as int, nb_of_parts as int, t) + part_rows(
                                rows as int,
                                nb_of_parts as int,
                                t,
                            )) * cols as int,
                        )
                    },
            decreases nb_of_parts - i,
        {
            proof {
                if i < rem {
                    assert(main as int * nb_of_parts as int <= rows as int) by {
                        vstd::arithmetic::div_mod::lemma_fundamental_div_mod(
                            rows as int,
                            nb_of_parts as int,
                        );
                        vstd::arithmetic::div_mod::lemma_mod_division_less_than_divisor(
                            rows as int,
                            nb_of_parts as int,
                        );
                        assert(nb_of_parts as int * main as int == main as int
                            * nb_of_parts as int) by (nonlinear_arith);
                    }
                    assert(rem > 0 ==> nb_of_parts >= 2) by {
                        if nb_of_parts == 1 {
                            vstd::arithmetic::div_mod::lemma_mod_division_less_than_divisor(
                                rows as int,
                                1,
                            );
                        }
                    }
                    assert(main as int + 1 <= usize::MAX) by (nonlinear_arith)
                        requires
                            main as int * nb_of_parts as int <= rows as int,
                            nb_of_parts as int >= 2,
                            main as int >= 0,
                            rows as int <= usize::MAX,
                    ;
                }
            }
            let size: usize = if i < rem {
                main + 1
            } else {
                main
            };
            proof {
                assert(size as int == part_rows(rows as int, nb_of_parts as int, i as int));
                lemma_part_start_bounds(rows as int, nb_of_parts as int, i as int + 1);
                assert(part_start(rows as int, nb_of_parts as int, i as int + 1) == start as int
                    + size as int);
            }
            let mut data: Vec<i64> = Vec::new();
            proof {
                let s = start as int;
                let c = cols as int;
                assert(0 <= s * c && s * c <= rows as int * c) by (nonlinear_arith)
                    requires
                        0 <= s <= rows as int,
                        0 <= c,
                ;
                assert(Seq::<i64>::empty() =~= self.data@.subrange(s * c, s * c));
            }
            let mut t: usize = 0;
            while t < size
                invariant
                    self.wf(),
                    rows == self.nb_lines,
                    cols == self.nb_columns,
                    start as int + size as int <= rows as int,
                    t <= size,
                    data@.len() == t as int * cols as int,
                    data@ == self.data@.subrange(
                        start as int * cols as int,
                        (start as int + t as int) * cols as int,
                    ),
                decreases size - t,
            {
                let mut row = match self.line(start + t) {
                    Ok(v) => v,
                    Err(_) => {
                        proof {
                            assert(false);
                        }
                        Vec::new()
                    },
                };
                proof {
                    crate::lemma_row_view_unfold(self, start as int + t as int);
                }
                data.append(&mut row);
                proof {
                    let s = start as int;
                    let c = cols as int;
                    let tt = t as int;
                    assert(0 <= s * c && s * c <= (s + tt) * c && (s + tt) * c <= (s + tt + 1) * c
                        && (s + tt + 1) * c <= rows as int * c && (s + tt + 1) * c == (s + tt) * c
                        + c && (tt + 1) * c == tt * c + c) by (nonlinear_arith)
                        requires
                            0 <= s,
                            0 <= tt,
                            0 <= c,
                            s + tt + 1 <= rows as int,
                    ;
                    assert(data@ =~= self.data@.subrange(s * c, (s + tt + 1) * c));
                }
                t = t + 1;
            }
            let piece = Matrix { nb_lines: size, nb_columns: cols, data };
            proof {
                assert(piece.wf()) by (nonlinear_arith)
                    requires
                        piece.data@.len() == size as int * cols as int,
                        piece.nb_lines == size,
                        piece.nb_columns == cols,
                ;
            }
            res.push(piece);
            start = start + size;
            i = i + 1;
        }
        Ok(res)
    }
}

/// The elements of the first `n` matrices, laid end to end in storage
/// order.
pub open spec fn concat_data(ms: Seq<Matrix>, n: int) -> Seq<i64>
    decreases n,
{
    if n <= 0 {
        Seq::empty()
    } else {
        concat_data(ms, n - 1) + ms[n - 1].data@
    }
}

/// The rows of the first `n` matrices, counted together.
pub open spec fn total_lines(ms: Seq<Matrix>, n: int) -> int
    decreases n,
{
    if n <= 0 {
        0
    } else {
        total_lines(ms, n - 1) + ms[n - 1].nb_lines
    }
}

/// Every one of the matrices has `cols` columns.
pub open spec fn all_columns_are(ms: Seq<Matrix>, cols: int) -> bool {
    forall|t: int| 0 <= t < ms.len() ==> (#[trigger] ms[t].nb_columns) as int == cols
}

impl Matrix {
    /// Stack `other` beneath this matrix. Succeeds exactly when the
    /// column counts agree; the result's store is this matrix's store
    /// followed by `other`'s. Consumes both.
    pub fn concatenate_lines(self, other: Matrix) -> (r: Result<Matrix, MatrixError>)
        requires
            self.wf(),
            other.wf(),
            self.nb_columns == other.nb_columns ==> self.nb_lines as int + other.nb_lines as int
                <= usize::MAX,
        ensures
            match r {
                Ok(m) => {
                    &&& self.nb_columns == other.nb_columns
                    &&& m.wf()
                    &&& m.nb_lines as int == self.nb_lines as int + other.nb_lines as int
                    &&& m.nb_columns == self.nb_columns
                    &&& m.data@ == self.data@ + other.data@
                },
                Err(e) => {
                    &&& self.nb_columns != other.nb_columns
                    &&& e == (MatrixError::ShapeMismatch {
                        expected_lines: other.nb_lines,
                        expected_columns: self.nb_columns,
                        actual_lines: other.nb_lines,
                        actual_columns: other.nb_columns,
                    })
                },
            },
    {
        if self.nb_columns != other.nb_columns {
            return Err(
                MatrixError::ShapeMismatch {
                    expected_lines: other.nb_lines,
                    expected_columns: self.nb_columns,
                    actual_lines: other.nb_lines,
                    actual_columns: other.nb_columns,
                },
            );
        }
        let nb_lines = self.nb_lines + other.nb_lines;
        let nb_columns = self.nb_columns;
        let mut data = self.data;
        let mut tail = other.data;
        data.append(&mut tail);
        proof {
            assert((self.nb_lines as int + other.nb_lines as int) * nb_columns as int
                == self.nb_lines as int * nb_columns as int + other.nb_lines as int
                * nb_columns as int) by (nonlinear_arith);
        }
        Ok(Matrix { nb_lines, nb_columns, data })
    }

    /// Stack every matrix of a non-empty sequence, in order, the first
    /// matrix's column count being the reference. Succeeds exactly when
    /// the sequence is non-empty and every column count matches the
    /// first; an empty sequence and the first mismatch are each
    /// reported. Consumes the sequence.
    pub fn concatenate_all(matrices: Vec<Matrix>) -> (r: Result<Matrix, MatrixError>)
        requires
            forall|t: int| 0 <= t < matrices@.len() ==> (#[trigger] matrices@[t]).wf(),
            matrices@.len() > 0 && all_columns_are(matrices@, matrices@[0].nb_columns as int)
                ==> total_lines(matrices@, matrices@.len() as int) <= usize::MAX,
        ensures
            match r {
                Ok(m) => {
                    &&& matrices@.len() > 0
                    &&& all_columns_are(matrices@, matrices@[0].nb_columns as int)
                    &&& m.wf()
                    &&& m.nb_columns == matrices@[0].nb_columns
                    &&& m.nb_lines as int == total_lines(matrices@, matrices@.len() as int)
                    &&& m.data@ == concat_data(matrices@, matrices@.len() as int)
                },
                Err(e) => {
                    if matrices@.len() == 0 {
                        e == MatrixError::EmptyInput
                    } else {
                        &&& !all_columns_are(matrices@, matrices@[0].nb_columns as int)
                        &&& exists|t: int|
                            {
                                &&& 0 < t < matrices@.len()
                                &&& (#[trigger] matrices@[t]).nb_columns != matrices@[0].nb_columns
                                &&& forall|s: int|
                                    0 <= s < t ==> (#[trigger] matrices@[s]).nb_columns
                                        == matrices@[0].nb_columns
                                &&& e == (MatrixError::ShapeMismatch {
                                    expected_lines: matrices@[t].nb_lines,
                                    expected_columns: matrices@[0].nb_columns,
                                    actual_lines: matrices@[t].nb_lines,
                                    actual_columns: matrices@[t].nb_columns,
                                })
                            }
                    }
                },
            },
    {
        let count = matrices.len();
        if count == 0 {
            return Err(MatrixError::EmptyInput);
        }
        let cols = matrices[0].nb_columns;
        let mut t: usize = 1;
        while t < count
            invariant
                count == matrices@.len(),
                cols == matrices@[0].nb_columns,
                1 <= t <= count,
                forall|s: int| 0 <= s < t ==> (#[trigger] matrices@[s]).nb_columns == cols,
            decreases count - t,
        {
            if matrices[t].nb_columns != cols {
                return Err(
                    MatrixError::ShapeMismatch {
                        expected_lines: matrices[t].nb_lines,
                        expected_columns: cols,
                        actual_lines: matrices[t].nb_lines,
                        actual_columns: matrices[t].nb_columns,
                    },
                );
            }
            t = t + 1;
        }
        let mut data: Vec<i64> = Vec::new();
        let mut nb_lines: usize = 0;
        let mut k: usize = 0;
        while k < count
            invariant
                count == matrices@.len(),
                cols == matrices@[0].nb_columns,
                forall|s: int| 0 <= s < count ==> (#[trigger] matrices@[s]).wf(),
                all_columns_are(matrices@, cols as int),
                total_lines(matrices@, count as int) <= usize::MAX,
                k <= count,
                nb_lines as int == total_lines(matrices@, k as int),
                data@ == concat_data(matrices@, k as int),
                data@.len() == nb_lines as int * cols as int,
            decreases count - k,
        {
            let next = matrices[k].data.len();
            let mut e: usize = 0;
            let ghost before = data@;
            while e < next
                invariant
                    count == matrices@.len(),
                    k < count,
                    next == matrices@[k as int].data@.len(),
                    e <= next,
                    data@ == before + matrices@[k as int].data@.subrange(0, e as int),
                decreases next - e,
            {
                let v = matrices[k].data[e];
                data.push(v);
                proof {
                    assert(data@ =~= before + matrices@[k as int].data@.subrange(
                        0,
                        e as int + 1,
                    ));
                }
                e = e + 1;
            }
            proof {
                assert(matrices@[k as int].data@.subrange(0, next as int)
                    =~= matrices@[k as int].data@);
                assert(data@ =~= concat_data(matrices@, k as int + 1));
                lemma_total_lines_bounds(matrices@, k as int + 1, count as int);
                assert((nb_lines as int + matrices@[k as int].nb_lines as int) * cols as int
                    == nb_lines as int * cols as int + matrices@[k as int].nb_lines as int
                    * cols as int) by (nonlinear_arith);
            }
            nb_lines = nb_lines + matrices[k].nb_lines;
            k = k + 1;
        }
        Ok(Matrix { nb_lines, nb_columns: cols, data })
    }
}

/// A row total over fewer matrices is never negative.
pub proof fn lemma_total_lines_nonneg(ms: Seq<Matrix>, n: int)
    ensures
        0 <= total_lines(ms, n),
    decreases n,
{
    if n > 0 {
        lemma_total_lines_nonneg(ms, n - 1);
    }
}

/// Partial row totals never exceed the full total: every matrix
/// contributes a non-negative row count.
pub proof fn lemma_total_lines_bounds(ms: Seq<Matrix>, a: int, b: int)
    requires
        0 <= a <= b,
    ensures
        total_lines(ms, a) <= total_lines(ms, b),
        0 <= total_lines(ms, a),
    decreases b - a,
{
    lemma_total_lines_nonneg(ms, a);
    if a < b {
        lemma_total_lines_bounds(ms, a, b - 1);
    }
}

} // verus!
