//! The library-wide laws: facts that relate several operations, stated
//! over the same spec functions that the operations' contracts use and
//! proved once and for all.

use vstd::prelude::*;

use crate::Matrix;
use crate::functionalities::all_columns_are;
use crate::functionalities::concat_data;
use crate::functionalities::count_true;
use crate::functionalities::mask_rows_data;
use crate::functionalities::part_rows;
use crate::functionalities::part_start;
use crate::functionalities::lemma_part_start_bounds;
use crate::functionalities::lemma_parts_cover;
use crate::functionalities::total_lines;
use crate::operations::col_sum;
use crate::operations::col_sum_prefix;
use crate::operations::lemma_flat_index_decompose;
use crate::operations::mul_entry;
use crate::operations::row_sum;
use crate::operations::row_sum_prefix;

verus! {

/// A matrix is determined by its shape and its elements: two
/// well-formed matrices of the same shape whose elements agree
/// everywhere have equal stores.
pub proof fn lemma_entries_determine_data(x: Matrix, y: Matrix)
    requires
        x.wf(),
        y.wf(),
        x.nb_lines == y.nb_lines,
        x.nb_columns == y.nb_columns,
        forall|i: int, j: int|
            0 <= i < x.nb_lines && 0 <= j < x.nb_columns ==> #[trigger] x.ent(i, j) == y.ent(i, j),
    ensures
        x.data@ == y.data@,
{
    let rows = x.nb_lines as int;
    let cols = x.nb_columns as int;
    assert forall|k: int| 0 <= k < x.data@.len() implies x.data@[k] == y.data@[k] by {
        lemma_flat_index_decompose(k, rows, cols);
        assert(x.ent(k / cols, k % cols) == y.ent(k / cols, k % cols));
    }
    assert(x.data@ =~= y.data@);
}

/// The call-convention variants of multiplication agree: any two
/// matrices whose entries both equal the product's entries are the same
/// matrix, so passing the operands owned, borrowed or mixed cannot
/// change the result.
pub proof fn lemma_mul_variants_agree(a: Matrix, b: Matrix, r1: Matrix, r2: Matrix)
    requires
        a.wf(),
        b.wf(),
        a.nb_columns == b.nb_lines,
        r1.wf(),
        r1.nb_lines == a.nb_lines,
        r1.nb_columns == b.nb_columns,
        forall|i: int, j: int|
            0 <= i < r1.nb_lines && 0 <= j < r1.nb_columns ==> #[trigger] r1.ent(i, j) as int
                == mul_entry(a, b, i, j),
        r2.wf(),
        r2.nb_lines == a.nb_lines,
        r2.nb_columns == b.nb_columns,
        forall|i: int, j: int|
            0 <= i < r2.nb_lines && 0 <= j < r2.nb_columns ==> #[trigger] r2.ent(i, j) as int
                == mul_entry(a, b, i, j),
    ensures
        r1.nb_lines == r2.nb_lines,
        r1.nb_columns == r2.nb_columns,
        r1.data@ == r2.data@,
{
    lemma_entries_determine_data(r1, r2);
}

/// Transposing twice gives back the original shape and elements.
pub proof fn lemma_transpose_involution(m: Matrix, once: Matrix, twice: Matrix)
    requires
        m.wf(),
        once.wf(),
        once.nb_lines == m.nb_columns,
        once.nb_columns == m.nb_lines,
        forall|i: int, j: int|
            0 <= i < m.nb_lines && 0 <= j < m.nb_columns ==> #[trigger] once.ent(j, i) == m.ent(
                i,
                j,
            ),
        twice.wf(),
        twice.nb_lines == once.nb_columns,
        twice.nb_columns == once.nb_lines,
        forall|i: int, j: int|
            0 <= i < once.nb_lines && 0 <= j < once.nb_columns ==> #[trigger] twice.ent(j, i)
                == once.ent(i, j),
    ensures
        twice.nb_lines == m.nb_lines,
        twice.nb_columns == m.nb_columns,
        twice.data@ == m.data@,
{
    assert forall|i: int, j: int|
        0 <= i < m.nb_lines && 0 <= j < m.nb_columns implies #[trigger] twice.ent(i, j) == m.ent(
        i,
        j,
    ) by {
        assert(twice.ent(i, j) == once.ent(j, i));
        assert(once.ent(j, i) == m.ent(i, j));
    }
    lemma_entries_determine_data(twice, m);
}

/// Selecting with an all-true mask of the right length keeps every row:
/// the selection has as many rows as the original and the same store.
pub proof fn lemma_all_true_mask_identity(m: Matrix, mask: Seq<bool>)
    requires
        m.wf(),
        mask.len() == m.nb_lines,
        forall|i: int| 0 <= i < mask.len() ==> #[trigger] mask[i],
    ensures
        count_true(mask, m.nb_lines as int) == m.nb_lines,
        mask_rows_data(m, mask, m.nb_lines as int) == m.data@,
{
    lemma_all_true_mask_prefix(m, mask, m.nb_lines as int);
    assert(mask_rows_data(m, mask, m.nb_lines as int) =~= m.data@);
}

/// Under an all-true mask the first `n` rows are kept whole: the count
/// is `n` and the kept elements are the first `n` rows' store.
proof fn lemma_all_true_mask_prefix(m: Matrix, mask: Seq<bool>, n: int)
    requires
        m.wf(),
        mask.len() == m.nb_lines,
        forall|i: int| 0 <= i < mask.len() ==> #[trigger] mask[i],
        0 <= n <= m.nb_lines,
    ensures
        count_true(mask, n) == n,
        mask_rows_data(m, mask, n) == m.data@.subrange(0, n * m.nb_columns as int),
    decreases n,
{
    let cols = m.nb_columns as int;
    if n == 0 {
        assert(mask_rows_data(m, mask, 0) =~= m.data@.subrange(0, 0));
        assert(0 * cols == 0) by (nonlinear_arith);
    } else {
        lemma_all_true_mask_prefix(m, mask, n - 1);
        crate::lemma_row_view_unfold(m, n - 1);
        assert(0 <= (n - 1) * cols && (n - 1) * cols + cols == n * cols && n * cols
            <= m.nb_lines as int * cols) by (nonlinear_arith)
            requires
                0 < n <= m.nb_lines as int,
                0 <= cols,
        ;
        assert(mask_rows_data(m, mask, n) =~= m.data@.subrange(0, n * cols));
    }
}

/// Concatenating the parts of a split, in order, reproduces the matrix:
/// the parts' rows add up to the original's, every part keeps the
/// column count, and the parts' stores laid end to end are the
/// original store.
pub proof fn lemma_split_concatenate_roundtrip(m: Matrix, parts: int, pieces: Seq<Matrix>)
    requires
        m.wf(),
        1 <= parts <= m.nb_lines,
        pieces.len() == parts,
        forall|i: int|
            0 <= i < parts ==> {
                &&& (#[trigger] pieces[i]).wf()
                &&& pieces[i].nb_columns == m.nb_columns
                &&& pieces[i].nb_lines as int == part_rows(m.nb_lines as int, parts, i)
                &&& pieces[i].data@ == m.data@.subrange(
                    part_start(m.nb_lines as int, parts, i) * m.nb_columns as int,
                    (part_start(m.nb_lines as int, parts, i) + part_rows(
                        m.nb_lines as int,
                        parts,
                        i,
                    )) * m.nb_columns as int,
                )
            },
    ensures
        total_lines(pieces, parts) == m.nb_lines,
        all_columns_are(pieces, m.nb_columns as int),
        concat_data(pieces, parts) == m.data@,
{
    lemma_split_prefix(m, parts, pieces, parts);
    lemma_parts_cover(m.nb_lines as int, parts);
    assert(concat_data(pieces, parts) =~= m.data@);
}

/// The first `n` parts of a split hold exactly the rows before part
/// `n`'s start, laid end to end.
proof fn lemma_split_prefix(m: Matrix, parts: int, pieces: Seq<Matrix>, n: int)
    requires
        m.wf(),
        1 <= parts <= m.nb_lines,
        pieces.len() == parts,
        0 <= n <= parts,
        forall|i: int|
            0 <= i < parts ==> {
                &&& (#[trigger] pieces[i]).wf()
                &&& pieces[i].nb_columns == m.nb_columns
                &&& pieces[i].nb_lines as int == part_rows(m.nb_lines as int, parts, i)
                &&& pieces[i].data@ == m.data@.subrange(
                    part_start(m.nb_lines as int, parts, i) * m.nb_columns as int,
                    (part_start(m.nb_lines as int, parts, i) + part_rows(
                        m.nb_lines as int,
                        parts,
                        i,
                    )) * m.nb_columns as int,
                )
            },
    ensures
        total_lines(pieces, n) == part_start(m.nb_lines as int, parts, n),
        concat_data(pieces, n) == m.data@.subrange(
            0,
            part_start(m.nb_lines as int, parts, n) * m.nb_columns as int,
        ),
    decreases n,
{
    let rows = m.nb_lines as int;
    let cols = m.nb_columns as int;
    if n == 0 {
        assert(0 * cols == 0) by (nonlinear_arith);
        assert(concat_data(pieces, 0) =~= m.data@.subrange(0, 0));
    } else {
        lemma_split_prefix(m, parts, pieces, n - 1);
        lemma_part_start_bounds(rows, parts, n - 1);
        lemma_part_start_bounds(rows, parts, n);
        let s0 = part_start(rows, parts, n - 1);
        let s1 = part_start(rows, parts, n);
        assert(0 <= s0 * cols && s0 * cols <= s1 * cols && s1 * cols <= rows * cols)
            by (nonlinear_arith)
            requires
                0 <= s0 <= s1 <= rows,
                0 <= cols,
        ;
        assert((s0 + part_rows(rows, parts, n - 1)) * cols == s1 * cols);
        assert(concat_data(pieces, n) =~= m.data@.subrange(0, s1 * cols));
    }
}

/// The running sum of the first `n` elements of a store.
pub open spec fn sum_prefix(s: Seq<i64>, n: int) -> int
    decreases n,
{
    if n <= 0 {
        0
    } else {
        sum_prefix(s, n - 1) + s[n - 1]
    }
}

/// The sum of every element of a matrix, in storage order.
pub open spec fn matrix_total(m: Matrix) -> int {
    sum_prefix(m.data@, m.data@.len() as int)
}

/// The row sums of the first `n` rows, added together.
pub open spec fn row_sums_total(m: Matrix, n: int) -> int
    decreases n,
{
    if n <= 0 {
        0
    } else {
        row_sums_total(m, n - 1) + row_sum(m, n - 1)
    }
}

/// The column sums of the first `n` columns, added together.
pub open spec fn col_sums_total(m: Matrix, n: int) -> int
    decreases n,
{
    if n <= 0 {
        0
    } else {
        col_sums_total(m, n - 1) + col_sum(m, n - 1)
    }
}

/// Summing row `i`'s first `t` elements continues the running sum of
/// the store at the row's offset.
proof fn lemma_row_continues_sum(m: Matrix, i: int, t: int)
    requires
        m.wf(),
        0 <= i < m.nb_lines,
        0 <= t <= m.nb_columns,
    ensures
        sum_prefix(m.data@, i * m.nb_columns as int + t) == sum_prefix(
            m.data@,
            i * m.nb_columns as int,
        ) + row_sum_prefix(m, i, t),
    decreases t,
{
    if t > 0 {
        lemma_row_continues_sum(m, i, t - 1);
        crate::lemma_offset_in_bounds(i, t - 1, m.nb_lines as int, m.nb_columns as int);
    } else {
        assert(0 <= i * m.nb_columns as int) by (nonlinear_arith)
            requires
                0 <= i,
                0 <= m.nb_columns as int,
        ;
    }
}

/// The sum of the first `n` rows' sums is the running sum of the store
/// up to row `n`.
proof fn lemma_row_sums_prefix(m: Matrix, n: int)
    requires
        m.wf(),
        0 <= n <= m.nb_lines,
    ensures
        row_sums_total(m, n) == sum_prefix(m.data@, n * m.nb_columns as int),
    decreases n,
{
    let cols = m.nb_columns as int;
    if n == 0 {
        assert(0 * cols == 0) by (nonlinear_arith);
    } else {
        lemma_row_sums_prefix(m, n - 1);
        lemma_row_continues_sum(m, n - 1, cols);
        assert((n - 1) * cols + cols == n * cols) by (nonlinear_arith);
    }
}

/// Adding row `i` to each of the first `jn` column sums adds row `i`'s
/// first `jn` elements to their total.
proof fn lemma_col_totals_step(m: Matrix, jn: int, i: int)
    requires
        m.wf(),
        0 <= i < m.nb_lines,
        0 <= jn <= m.nb_columns,
    ensures
        col_prefix_totals(m, jn, i + 1) == col_prefix_totals(m, jn, i) + row_sum_prefix(m, i, jn),
    decreases jn,
{
    if jn > 0 {
        lemma_col_totals_step(m, jn - 1, i);
    }
}

/// The first `jn` columns' partial sums over the first `i` rows, added
/// together.
spec fn col_prefix_totals(m: Matrix, jn: int, i: int) -> int
    decreases jn,
{
    if jn <= 0 {
        0
    } else {
        col_prefix_totals(m, jn - 1, i) + col_sum_prefix(m, jn - 1, i)
    }
}

/// Over the first `i` rows, summing by column agrees with the running
/// sum of the store.
proof fn lemma_col_totals_prefix(m: Matrix, i: int)
    requires
        m.wf(),
        0 <= i <= m.nb_lines,
    ensures
        col_prefix_totals(m, m.nb_columns as int, i) == sum_prefix(
            m.data@,
            i * m.nb_columns as int,
        ),
    decreases i,
{
    let cols = m.nb_columns as int;
    if i == 0 {
        assert(0 * cols == 0) by (nonlinear_arith);
        lemma_col_totals_zero(m, cols);
    } else {
        lemma_col_totals_prefix(m, i - 1);
        lemma_col_totals_step(m, cols, i - 1);
        lemma_row_continues_sum(m, i - 1, cols);
        assert((i - 1) * cols + cols == i * cols) by (nonlinear_arith);
    }
}

/// Over no rows at all, every column's partial sum is the additive
/// identity.
proof fn lemma_col_totals_zero(m: Matrix, jn: int)
    ensures
        col_prefix_totals(m, jn, 0) == 0,
    decreases jn,
{
    if jn > 0 {
        lemma_col_totals_zero(m, jn - 1);
    }
}

/// The full column totals are the column sums added together.
proof fn lemma_col_totals_full(m: Matrix, jn: int)
    requires
        m.wf(),
        0 <= jn <= m.nb_columns,
    ensures
        col_prefix_totals(m, jn, m.nb_lines as int) == col_sums_total(m, jn),
    decreases jn,
{
    if jn > 0 {
        lemma_col_totals_full(m, jn - 1);
    }
}

/// The sum of all elements equals the sum of the row sums and also the
/// sum of the column sums.
pub proof fn lemma_matrix_total_by_rows_and_columns(m: Matrix)
    requires
        m.wf(),
    ensures
        row_sums_total(m, m.nb_lines as int) == matrix_total(m),
        col_sums_total(m, m.nb_columns as int) == matrix_total(m),
{
    let rows = m.nb_lines as int;
    let cols = m.nb_columns as int;
    lemma_row_sums_prefix(m, rows);
    lemma_col_totals_prefix(m, rows);
    lemma_col_totals_full(m, cols);
}

/// Reduction consistency: the elements of the single-row reduction sum
/// to the matrix's total, and so do the elements of the single-column
/// reduction.
pub proof fn lemma_reduction_consistency(m: Matrix, by_lines: Matrix, by_columns: Matrix)
    requires
        m.wf(),
        by_lines.wf(),
        by_lines.nb_lines == 1,
        by_lines.nb_columns == m.nb_columns,
        forall|j: int|
            0 <= j < m.nb_columns ==> #[trigger] by_lines.ent(0, j) as int == col_sum(m, j),
        by_columns.wf(),
        by_columns.nb_lines == m.nb_lines,
        by_columns.nb_columns == 1,
        forall|i: int|
            0 <= i < m.nb_lines ==> #[trigger] by_columns.ent(i, 0) as int == row_sum(m, i),
    ensures
        matrix_total(by_lines) == matrix_total(m),
        matrix_total(by_columns) == matrix_total(m),
{
    lemma_matrix_total_by_rows_and_columns(m);
    lemma_line_reduction_total(m, by_lines, m.nb_columns as int);
    lemma_column_reduction_total(m, by_columns, m.nb_lines as int);
}

/// The running sum of the single-row reduction is the running total of
/// the column sums.
proof fn lemma_line_reduction_total(m: Matrix, by_lines: Matrix, n: int)
    requires
        m.wf(),
        by_lines.wf(),
        by_lines.nb_lines == 1,
        by_lines.nb_columns == m.nb_columns,
        forall|j: int|
            0 <= j < m.nb_columns ==> #[trigger] by_lines.ent(0, j) as int == col_sum(m, j),
        0 <= n <= m.nb_columns,
    ensures
        sum_prefix(by_lines.data@, n) == col_sums_total(m, n),
    decreases n,
{
    if n > 0 {
        lemma_line_reduction_total(m, by_lines, n - 1);
        assert(by_lines.ent(0, n - 1) == by_lines.data@[n - 1]);
    }
}

/// The running sum of the single-column reduction is the running total
/// of the row sums.
proof fn lemma_column_reduction_total(m: Matrix, by_columns: Matrix, n: int)
    requires
        m.wf(),
        by_columns.wf(),
        by_columns.nb_lines == m.nb_lines,
        by_columns.nb_columns == 1,
        forall|i: int|
            0 <= i < m.nb_lines ==> #[trigger] by_columns.ent(i, 0) as int == row_sum(m, i),
        0 <= n <= m.nb_lines,
    ensures
        sum_prefix(by_columns.data@, n) == row_sums_total(m, n),
    decreases n,
{
    if n > 0 {
        lemma_column_reduction_total(m, by_columns, n - 1);
        assert(by_columns.ent(n - 1, 0) == by_columns.data@[n - 1]);
    }
}

} // verus!
