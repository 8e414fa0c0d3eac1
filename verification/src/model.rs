//! The mathematical meaning of the kernels: running sums of products over
//! row-major sequences.
use crate::scalar::Scalar;
use vstd::arithmetic::div_mod::{lemma_fundamental_div_mod, lemma_fundamental_div_mod_converse};
use vstd::prelude::*;

verus! {

/// The product of `left[row, k]` and `right[k, col]`, where `left` has
/// `inners` entries to a row and `right` has `columns`.
pub open spec fn term<T: Scalar>(
    left: Seq<T>,
    right: Seq<T>,
    columns: int,
    inners: int,
    row: int,
    col: int,
    k: int,
) -> T {
    left[row * inners + k].product(right[k * columns + col])
}

/// `acc` with the terms `k = lo, lo + 1, .., hi - 1` of entry `(row, col)`
/// added to it one after another, in that order:
/// `((acc + t(lo)) + t(lo + 1)) + .. + t(hi - 1)`.
pub open spec fn dot_from<T: Scalar>(
    acc: T,
    left: Seq<T>,
    right: Seq<T>,
    columns: int,
    inners: int,
    row: int,
    col: int,
    lo: int,
    hi: int,
) -> T
    decreases hi - lo,
{
    if hi <= lo {
        acc
    } else {
        dot_from(acc, left, right, columns, inners, row, col, lo, hi - 1).sum(
            term(left, right, columns, inners, row, col, hi - 1),
        )
    }
}

/// Entry `i` of a buffer whose rows are the rows `first_row, first_row + 1, ..`
/// of the result, after the first `upto` terms were added to what it held.
pub open spec fn partial<T: Scalar>(
    before: Seq<T>,
    left: Seq<T>,
    right: Seq<T>,
    first_row: int,
    columns: int,
    inners: int,
    i: int,
    upto: int,
) -> T {
    dot_from(
        before[i],
        left,
        right,
        columns,
        inners,
        first_row + i / columns,
        i % columns,
        0,
        upto,
    )
}

/// The buffer that an accumulating kernel leaves: every entry of `before` with
/// all `inners` terms of its row and column added to it. The buffer holds the
/// rows of the result from `first_row` on, `columns` entries to a row.
pub open spec fn accumulated<T: Scalar>(
    before: Seq<T>,
    left: Seq<T>,
    right: Seq<T>,
    first_row: int,
    columns: int,
    inners: int,
) -> Seq<T> {
    Seq::new(
        before.len(),
        |i: int| partial(before, left, right, first_row, columns, inners, i, inners),
    )
}

/// A buffer of `len` zeros.
pub open spec fn zeros<T: Scalar>(len: nat) -> Seq<T> {
    Seq::new(len, |i: int| T::zero_value())
}

/// The buffer that an overwriting kernel leaves: the product itself, `rows` by
/// `columns`, each entry summed up from zero.
pub open spec fn product<T: Scalar>(
    left: Seq<T>,
    right: Seq<T>,
    rows: int,
    columns: int,
    inners: int,
) -> Seq<T> {
    Seq::new(
        (rows * columns) as nat,
        |i: int|
            dot_from(
                T::zero_value(),
                left,
                right,
                columns,
                inners,
                i / columns,
                i % columns,
                0,
                inners,
            ),
    )
}

/// Adding the terms `lo..hi` is adding `lo..mid` and then `mid..hi`.
pub proof fn lemma_dot_split<T: Scalar>(
    acc: T,
    left: Seq<T>,
    right: Seq<T>,
    columns: int,
    inners: int,
    row: int,
    col: int,
    lo: int,
    mid: int,
    hi: int,
)
    requires
        lo <= mid <= hi,
    ensures
        dot_from(acc, left, right, columns, inners, row, col, lo, hi) == dot_from(
            dot_from(acc, left, right, columns, inners, row, col, lo, mid),
            left,
            right,
            columns,
            inners,
            row,
            col,
            mid,
            hi,
        ),
    decreases hi - mid,
{
    if mid < hi {
        lemma_dot_split(acc, left, right, columns, inners, row, col, lo, mid, hi - 1);
    }
}

/// In a row-major buffer with `columns > 0` entries to a row, the entry at
/// `row * columns + col` lies in row `row` and column `col`.
pub proof fn lemma_row_major(columns: int, row: int, col: int)
    requires
        0 <= col < columns,
    ensures
        (row * columns + col) / columns == row,
        (row * columns + col) % columns == col,
{
    lemma_fundamental_div_mod_converse(row * columns + col, columns, row, col);
}

/// Entry `(row, col)` of an accumulated buffer, without division: what the
/// buffer held there, with the `inners` terms of that row and column added.
pub proof fn lemma_accumulated_entry<T: Scalar>(
    before: Seq<T>,
    left: Seq<T>,
    right: Seq<T>,
    first_row: int,
    columns: int,
    inners: int,
    row: int,
    col: int,
)
    requires
        0 <= row,
        0 <= col < columns,
        row * columns + col < before.len(),
    ensures
        accumulated(before, left, right, first_row, columns, inners)[row * columns + col]
            == dot_from(
            before[row * columns + col],
            left,
            right,
            columns,
            inners,
            first_row + row,
            col,
            0,
            inners,
        ),
{
    lemma_row_major(columns, row, col);
    assert(0 <= row * columns) by (nonlinear_arith)
        requires
            0 <= row,
            0 < columns,
    ;
}

/// Every entry of a row-major buffer of `rows` rows lies in one of them, at one
/// of its `columns` columns.
pub proof fn lemma_row_of_entry(columns: int, rows: int, i: int)
    requires
        0 <= i < rows * columns,
        0 < columns,
    ensures
        0 <= i / columns < rows,
        0 <= i % columns < columns,
{
    lemma_fundamental_div_mod(i, columns);
    let q = i / columns;
    assert(q < rows) by (nonlinear_arith)
        requires
            i == columns * q + i % columns,
            0 <= i % columns,
            i < rows * columns,
            0 < columns,
    ;
    assert(0 <= q) by (nonlinear_arith)
        requires
            i == columns * q + i % columns,
            i % columns < columns,
            0 <= i,
            0 < columns,
    ;
}

/// The entries `col_lo..col_hi` of row `row` of a row-major buffer are those at
/// the positions `row * columns + col_lo .. row * columns + col_hi`.
pub proof fn lemma_row_span(columns: int, row: int, col_lo: int, col_hi: int, i: int)
    requires
        0 < columns,
        0 <= col_lo <= col_hi <= columns,
        0 <= i,
    ensures
        (row * columns + col_lo <= i < row * columns + col_hi) <==> (i / columns == row && col_lo
            <= i % columns < col_hi),
        i / columns == row ==> i % columns == i - row * columns,
{
    lemma_fundamental_div_mod(i, columns);
    assert(columns * (i / columns) == (i / columns) * columns) by (nonlinear_arith);
    if row * columns + col_lo <= i < row * columns + col_hi {
        lemma_row_major(columns, row, i - row * columns);
    }
}

/// One row takes a block of terms: where every entry of `now` holds its first
/// `upto(i)` terms and `next` differs from it by the terms `inner_lo..inner_hi`
/// on the columns `col_lo..col_hi` of row `row`, which held `inner_lo` terms,
/// those entries of `next` hold `inner_hi` terms and the others what they held.
pub proof fn lemma_block_step<T: Scalar>(
    before: Seq<T>,
    now: Seq<T>,
    next: Seq<T>,
    left: Seq<T>,
    right: Seq<T>,
    first_row: int,
    columns: int,
    inners: int,
    row: int,
    col_lo: int,
    col_hi: int,
    inner_lo: int,
    inner_hi: int,
    i: int,
)
    requires
        0 < columns,
        0 <= col_lo <= col_hi <= columns,
        0 <= inner_lo <= inner_hi,
        0 <= i < before.len(),
        now.len() == before.len(),
        next.len() == before.len(),
        next[i] == (if row * columns + col_lo <= i < row * columns + col_hi {
            dot_from(
                now[i],
                left,
                right,
                columns,
                inners,
                first_row + row,
                i - row * columns,
                inner_lo,
                inner_hi,
            )
        } else {
            now[i]
        }),
        (i / columns == row && col_lo <= i % columns < col_hi) ==> now[i] == partial(
            before,
            left,
            right,
            first_row,
            columns,
            inners,
            i,
            inner_lo,
        ),
    ensures
        next[i] == (if i / columns == row && col_lo <= i % columns < col_hi {
            partial(before, left, right, first_row, columns, inners, i, inner_hi)
        } else {
            now[i]
        }),
{
    lemma_row_span(columns, row, col_lo, col_hi, i);
    if i / columns == row && col_lo <= i % columns < col_hi {
        lemma_dot_split(
            before[i],
            left,
            right,
            columns,
            inners,
            first_row + row,
            i % columns,
            0,
            inner_lo,
            inner_hi,
        );
    }
}

} // verus!
