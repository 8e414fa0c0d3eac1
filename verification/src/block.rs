//! The step that the reordered, tiled and parallel kernels share: one row of
//! the output takes a block of terms, column by column in unit stride.
use crate::model::{dot_from, term};
use crate::scalar::Scalar;
use vstd::prelude::*;

verus! {

/// Adds the terms `inner_lo..inner_hi` to the columns `col_lo..col_hi` of the
/// row of `out` that starts at `out_base`; that row stands for row `row` of the
/// result. For each term the columns are walked in order, so both `right` and
/// `out` are read in unit stride. Nothing else in `out` changes.
#[verifier::loop_isolation(false)]
pub(crate) fn accumulate_row_block<T: Scalar>(
    columns: usize,
    inners: usize,
    row: usize,
    out_base: usize,
    col_lo: usize,
    col_hi: usize,
    inner_lo: usize,
    inner_hi: usize,
    left: &[T],
    right: &[T],
    out: &mut [T],
)
    requires
        (row + 1) * inners <= left@.len(),
        right@.len() == inners * columns,
        col_lo <= col_hi <= columns,
        inner_lo <= inner_hi <= inners,
        out_base + columns <= old(out)@.len(),
    ensures
        final(out)@.len() == old(out)@.len(),
        forall|i: int|
            0 <= i < old(out)@.len() ==> #[trigger] final(out)@[i] == (if out_base + col_lo <= i
                < out_base + col_hi {
                dot_from(
                    old(out)@[i],
                    left@,
                    right@,
                    columns as int,
                    inners as int,
                    row as int,
                    i - out_base,
                    inner_lo as int,
                    inner_hi as int,
                )
            } else {
                old(out)@[i]
            }),
{
    let ghost left_len = left.len();
    let ghost right_len = right.len();
    let ghost out_len = out.len();
    assert(0 <= row * inners && row * inners + inners == (row + 1) * inners) by (nonlinear_arith);
    let left_base: usize = row * inners;
    let mut inner: usize = inner_lo;
    while inner < inner_hi
        invariant
            inner_lo <= inner <= inner_hi,
            out@.len() == old(out)@.len(),
            forall|i: int|
                0 <= i < out@.len() ==> #[trigger] out@[i] == (if out_base + col_lo <= i < out_base
                    + col_hi {
                    dot_from(
                        old(out)@[i],
                        left@,
                        right@,
                        columns as int,
                        inners as int,
                        row as int,
                        i - out_base,
                        inner_lo as int,
                        inner as int,
                    )
                } else {
                    old(out)@[i]
                }),
        decreases inner_hi - inner,
    {
        assert(0 <= inner * columns && inner * columns + columns <= inners * columns)
            by (nonlinear_arith)
            requires
                inner < inners,
        ;
        let a = left[left_base + inner];
        let right_base: usize = inner * columns;
        let ghost row_before = out@;
        let mut col: usize = col_lo;
        while col < col_hi
            invariant
                col_lo <= col <= col_hi,
                out@.len() == row_before.len(),
                forall|i: int|
                    0 <= i < out@.len() ==> #[trigger] out@[i] == (if out_base + col_lo <= i
                        < out_base + col {
                        row_before[i].sum(
                            term(
                                left@,
                                right@,
                                columns as int,
                                inners as int,
                                row as int,
                                i - out_base,
                                inner as int,
                            ),
                        )
                    } else {
                        row_before[i]
                    }),
            decreases col_hi - col,
        {
            let at: usize = out_base + col;
            out[at] = out[at].plus(a.times(right[right_base + col]));
            col += 1;
        }
        inner += 1;
    }
}

} // verus!
