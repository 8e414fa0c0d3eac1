//! The four sequential kernels. They differ in the order in which they walk
//! memory, not in what they compute.
use crate::block::accumulate_row_block;
use crate::error::{
    check_dimensions, check_tile_size, dimensions_verdict, tiled_verdict, MatMulError,
};
use crate::model::{
    accumulated, dot_from, lemma_block_step, lemma_row_major, lemma_row_of_entry, partial, product,
};
use crate::scalar::Scalar;
use vstd::prelude::*;

verus! {

/// The naive kernel: adds the product of `left` (`rows x inners`) and `right`
/// (`inners x columns`) into `result` (`rows x columns`), all row-major, one
/// entry after another, each term added to the entry in place.
///
/// Every entry takes its terms in the order of the inner dimension. A caller
/// who wants the product itself hands in zeros.
///
/// Buffers of the wrong length are refused with `InvalidDimensions`; `result`
/// is then left as it was.
#[verifier::loop_isolation(false)]
pub fn naive_mat_mul<T: Scalar>(
    rows: usize,
    columns: usize,
    inners: usize,
    left: &Vec<T>,
    right: &Vec<T>,
    result: &mut Vec<T>,
) -> (r: Result<(), MatMulError>)
    ensures
        r == dimensions_verdict(
            rows as int,
            columns as int,
            inners as int,
            left@.len() as int,
            right@.len() as int,
            old(result)@.len() as int,
        ),
        r is Ok ==> final(result)@ == accumulated(
            old(result)@,
            left@,
            right@,
            0,
            columns as int,
            inners as int,
        ),
        r is Err ==> final(result)@ == old(result)@,
{
    if check_dimensions(rows, columns, inners, left.len(), right.len(), result.len()).is_err() {
        return Err(MatMulError::InvalidDimensions);
    }
    let ghost before = result@;
    let mut row: usize = 0;
    while row < rows
        invariant
            row <= rows,
            result@.len() == before.len(),
            forall|i: int|
                0 <= i < before.len() ==> #[trigger] result@[i] == partial(
                    before,
                    left@,
                    right@,
                    0,
                    columns as int,
                    inners as int,
                    i,
                    if i < row * columns {
                        inners as int
                    } else {
                        0
                    },
                ),
        decreases rows - row,
    {
        assert(0 <= row * columns && row * columns + columns <= rows * columns && 0 <= row
            * inners && row * inners + inners <= rows * inners && (row + 1) * columns == row
            * columns + columns) by (nonlinear_arith)
            requires
                row < rows,
        ;
        let mut col: usize = 0;
        while col < columns
            invariant
                col <= columns,
                result@.len() == before.len(),
                forall|i: int|
                    0 <= i < before.len() ==> #[trigger] result@[i] == partial(
                        before,
                        left@,
                        right@,
                        0,
                        columns as int,
                        inners as int,
                        i,
                        if i < row * columns + col {
                            inners as int
                        } else {
                            0
                        },
                    ),
            decreases columns - col,
        {
            let at: usize = row * columns + col;
            proof {
                lemma_row_major(columns as int, row as int, col as int);
            }
            let mut inner: usize = 0;
            while inner < inners
                invariant
                    inner <= inners,
                    result@.len() == before.len(),
                    forall|i: int|
                        0 <= i < before.len() ==> #[trigger] result@[i] == partial(
                            before,
                            left@,
                            right@,
                            0,
                            columns as int,
                            inners as int,
                            i,
                            if i < at {
                                inners as int
                            } else if i == at {
                                inner as int
                            } else {
                                0
                            },
                        ),
                decreases inners - inner,
            {
                assert(0 <= inner * columns && inner * columns + columns <= inners * columns)
                    by (nonlinear_arith)
                    requires
                        inner < inners,
                ;
                result[at] = result[at].plus(
                    left[row * inners + inner].times(right[inner * columns + col]),
                );
                inner += 1;
            }
            col += 1;
        }
        row += 1;
    }
    assert(result@ =~= accumulated(before, left@, right@, 0, columns as int, inners as int));
    Ok(())
}

/// The register-accumulating kernel: writes the product of `left`
/// (`rows x inners`) and `right` (`inners x columns`) over `result`
/// (`rows x columns`), all row-major. Each entry is summed up from zero in a
/// local and written once; what `result` held is not read.
///
/// Buffers of the wrong length are refused with `InvalidDimensions`; `result`
/// is then left as it was.
#[verifier::loop_isolation(false)]
pub fn naive_mat_mul_in_reg<T: Scalar>(
    rows: usize,
    columns: usize,
    inners: usize,
    left: &Vec<T>,
    right: &Vec<T>,
    result: &mut Vec<T>,
) -> (r: Result<(), MatMulError>)
    ensures
        r == dimensions_verdict(
            rows as int,
            columns as int,
            inners as int,
            left@.len() as int,
            right@.len() as int,
            old(result)@.len() as int,
        ),
        r is Ok ==> final(result)@ == product(
            left@,
            right@,
            rows as int,
            columns as int,
            inners as int,
        ),
        r is Err ==> final(result)@ == old(result)@,
{
    if check_dimensions(rows, columns, inners, left.len(), right.len(), result.len()).is_err() {
        return Err(MatMulError::InvalidDimensions);
    }
    let ghost before = result@;
    let ghost whole = product(left@, right@, rows as int, columns as int, inners as int);
    let mut row: usize = 0;
    while row < rows
        invariant
            row <= rows,
            result@.len() == before.len(),
            forall|i: int|
                0 <= i < before.len() ==> #[trigger] result@[i] == (if i < row * columns {
                    whole[i]
                } else {
                    before[i]
                }),
        decreases rows - row,
    {
        assert(0 <= row * columns && row * columns + columns <= rows * columns && 0 <= row
            * inners && row * inners + inners <= rows * inners && (row + 1) * columns == row
            * columns + columns) by (nonlinear_arith)
            requires
                row < rows,
        ;
        let mut col: usize = 0;
        while col < columns
            invariant
                col <= columns,
                result@.len() == before.len(),
                forall|i: int|
                    0 <= i < before.len() ==> #[trigger] result@[i] == (if i < row * columns
                        + col {
                        whole[i]
                    } else {
                        before[i]
                    }),
            decreases columns - col,
        {
            let mut acc = T::zero();
            let mut inner: usize = 0;
            while inner < inners
                invariant
                    inner <= inners,
                    acc == dot_from(
                        T::zero_value(),
                        left@,
                        right@,
                        columns as int,
                        inners as int,
                        row as int,
                        col as int,
                        0,
                        inner as int,
                    ),
                decreases inners - inner,
            {
                assert(0 <= inner * columns && inner * columns + columns <= inners * columns)
                    by (nonlinear_arith)
                    requires
                        inner < inners,
                ;
                acc = acc.plus(left[row * inners + inner].times(right[inner * columns + col]));
                inner += 1;
            }
            proof {
                lemma_row_major(columns as int, row as int, col as int);
            }
            result[row * columns + col] = acc;
            col += 1;
        }
        row += 1;
    }
    assert(result@ =~= whole);
    Ok(())
}

/// The reordered-loop kernel: adds the product of `left` (`rows x inners`) and
/// `right` (`inners x columns`) into `result` (`rows x columns`), all
/// row-major. The loops run over the rows, then the inner dimension, then the
/// columns, so the innermost loop walks `right` and `result` in unit stride.
///
/// Every entry takes its terms in the order of the inner dimension. A caller
/// who wants the product itself hands in zeros.
///
/// Buffers of the wrong length are refused with `InvalidDimensions`; `result`
/// is then left as it was.
#[verifier::loop_isolation(false)]
pub fn matmul_with_good_loop_order<T: Scalar>(
    rows: usize,
    columns: usize,
    inners: usize,
    left: &Vec<T>,
    right: &Vec<T>,
    result: &mut Vec<T>,
) -> (r: Result<(), MatMulError>)
    ensures
        r == dimensions_verdict(
            rows as int,
            columns as int,
            inners as int,
            left@.len() as int,
            right@.len() as int,
            old(result)@.len() as int,
        ),
        r is Ok ==> final(result)@ == accumulated(
            old(result)@,
            left@,
            right@,
            0,
            columns as int,
            inners as int,
        ),
        r is Err ==> final(result)@ == old(result)@,
{
    if check_dimensions(rows, columns, inners, left.len(), right.len(), result.len()).is_err() {
        return Err(MatMulError::InvalidDimensions);
    }
    let ghost before = result@;
    let out: &mut [T] = result.as_mut_slice();
    let mut row: usize = 0;
    while row < rows
        invariant
            row <= rows,
            out@.len() == before.len(),
            forall|i: int|
                0 <= i < before.len() ==> #[trigger] out@[i] == partial(
                    before,
                    left@,
                    right@,
                    0,
                    columns as int,
                    inners as int,
                    i,
                    if i / (columns as int) < row {
                        inners as int
                    } else {
                        0
                    },
                ),
        decreases rows - row,
    {
        let ghost now = out@;
        assert(0 <= row * columns && row * columns + columns <= rows * columns && (row + 1)
            * inners <= rows * inners) by (nonlinear_arith)
            requires
                row < rows,
        ;
        accumulate_row_block(
            columns,
            inners,
            row,
            row * columns,
            0,
            columns,
            0,
            inners,
            left.as_slice(),
            right.as_slice(),
            out,
        );
        assert forall|i: int| 0 <= i < before.len() implies #[trigger] out@[i] == partial(
            before,
            left@,
            right@,
            0,
            columns as int,
            inners as int,
            i,
            if i / (columns as int) < row + 1 {
                inners as int
            } else {
                0
            },
        ) by {
            lemma_row_of_entry(columns as int, rows as int, i);
            lemma_block_step(
                before,
                now,
                out@,
                left@,
                right@,
                0,
                columns as int,
                inners as int,
                row as int,
                0,
                columns as int,
                0,
                inners as int,
                i,
            );
        }
        row += 1;
    }
    assert forall|i: int| 0 <= i < before.len() implies #[trigger] out@[i] == partial(
        before,
        left@,
        right@,
        0,
        columns as int,
        inners as int,
        i,
        inners as int,
    ) by {
        lemma_row_of_entry(columns as int, rows as int, i);
    }
    assert(out@ =~= accumulated(before, left@, right@, 0, columns as int, inners as int));
    Ok(())
}

/// The cache-tiled kernel: adds the product of `left` (`rows x inners`) and
/// `right` (`inners x columns`) into `result` (`rows x columns`), all
/// row-major. The inner dimension is cut into blocks of `tile_size`, the last
/// one shorter where `tile_size` does not divide `inners`; for each block every
/// row of the result takes the block's terms.
///
/// The result does not depend on `tile_size`: every entry takes its terms in
/// the order of the inner dimension. A caller who wants the product itself
/// hands in zeros.
///
/// Buffers of the wrong length are refused with `InvalidDimensions`, then a
/// `tile_size` of zero with `InvalidTileSize`; `result` is then left as it was.
#[verifier::loop_isolation(false)]
pub fn matmul_tiling<T: Scalar>(
    rows: usize,
    columns: usize,
    inners: usize,
    tile_size: usize,
    left: &Vec<T>,
    right: &Vec<T>,
    result: &mut Vec<T>,
) -> (r: Result<(), MatMulError>)
    ensures
        r == tiled_verdict(
            rows as int,
            columns as int,
            inners as int,
            tile_size as int,
            left@.len() as int,
            right@.len() as int,
            old(result)@.len() as int,
        ),
        r is Ok ==> final(result)@ == accumulated(
            old(result)@,
            left@,
            right@,
            0,
            columns as int,
            inners as int,
        ),
        r is Err ==> final(result)@ == old(result)@,
{
    if check_dimensions(rows, columns, inners, left.len(), right.len(), result.len()).is_err() {
        return Err(MatMulError::InvalidDimensions);
    }
    if check_tile_size(tile_size).is_err() {
        return Err(MatMulError::InvalidTileSize);
    }
    let ghost before = result@;
    let out: &mut [T] = result.as_mut_slice();
    let mut inner_tile: usize = 0;
    while inner_tile < inners
        invariant
            inner_tile <= inners,
            out@.len() == before.len(),
            forall|i: int|
                0 <= i < before.len() ==> #[trigger] out@[i] == partial(
                    before,
                    left@,
                    right@,
                    0,
                    columns as int,
                    inners as int,
                    i,
                    inner_tile as int,
                ),
        decreases inners - inner_tile,
    {
        let tile_end: usize = if tile_size >= inners - inner_tile {
            inners
        } else {
            inner_tile + tile_size
        };
        let mut row: usize = 0;
        while row < rows
            invariant
                row <= rows,
                out@.len() == before.len(),
                forall|i: int|
                    0 <= i < before.len() ==> #[trigger] out@[i] == partial(
                        before,
                        left@,
                        right@,
                        0,
                        columns as int,
                        inners as int,
                        i,
                        if i / (columns as int) < row {
                            tile_end as int
                        } else {
                            inner_tile as int
                        },
                    ),
            decreases rows - row,
        {
            let ghost now = out@;
            assert(0 <= row * columns && row * columns + columns <= rows * columns && (row + 1)
                * inners <= rows * inners) by (nonlinear_arith)
                requires
                    row < rows,
            ;
            accumulate_row_block(
                columns,
                inners,
                row,
                row * columns,
                0,
                columns,
                inner_tile,
                tile_end,
                left.as_slice(),
                right.as_slice(),
                out,
            );
            assert forall|i: int| 0 <= i < before.len() implies #[trigger] out@[i] == partial(
                before,
                left@,
                right@,
                0,
                columns as int,
                inners as int,
                i,
                if i / (columns as int) < row + 1 {
                    tile_end as int
                } else {
                    inner_tile as int
                },
            ) by {
                lemma_row_of_entry(columns as int, rows as int, i);
                lemma_block_step(
                    before,
                    now,
                    out@,
                    left@,
                    right@,
                    0,
                    columns as int,
                    inners as int,
                    row as int,
                    0,
                    columns as int,
                    inner_tile as int,
                    tile_end as int,
                    i,
                );
            }
            row += 1;
        }
        assert forall|i: int| 0 <= i < before.len() implies #[trigger] out@[i] == partial(
            before,
            left@,
            right@,
            0,
            columns as int,
            inners as int,
            i,
            tile_end as int,
        ) by {
            lemma_row_of_entry(columns as int, rows as int, i);
        }
        inner_tile = tile_end;
    }
    assert(out@ =~= accumulated(before, left@, right@, 0, columns as int, inners as int));
    Ok(())
}

} // verus!
