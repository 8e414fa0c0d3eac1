//! What holds across the kernels: they agree with one another, and neither
//! the tile size nor the pool shows in a result.
use crate::error::{dimensions_match, dimensions_verdict, tiled_verdict, MatMulError};
use crate::model::{accumulated, product, zeros};
use crate::parallel::{chunk_end, chunk_start, WorkerPool};
use crate::scalar::Scalar;
use vstd::arithmetic::div_mod::{lemma_fundamental_div_mod, lemma_fundamental_div_mod_converse};
use vstd::prelude::*;

verus! {

/// A call of `naive_mat_mul` or of `matmul_with_good_loop_order` that found
/// `before` in the result buffer, left `after` there and answered `r`.
pub open spec fn accumulating_run<T: Scalar>(
    rows: int,
    columns: int,
    inners: int,
    left: Seq<T>,
    right: Seq<T>,
    before: Seq<T>,
    after: Seq<T>,
    r: Result<(), MatMulError>,
) -> bool {
    &&& r == dimensions_verdict(
        rows,
        columns,
        inners,
        left.len() as int,
        right.len() as int,
        before.len() as int,
    )
    &&& r is Ok ==> after == accumulated(before, left, right, 0, columns, inners)
    &&& r is Err ==> after == before
}

/// A call of `naive_mat_mul_in_reg` that found `before` in the result buffer,
/// left `after` there and answered `r`.
pub open spec fn overwriting_run<T: Scalar>(
    rows: int,
    columns: int,
    inners: int,
    left: Seq<T>,
    right: Seq<T>,
    before: Seq<T>,
    after: Seq<T>,
    r: Result<(), MatMulError>,
) -> bool {
    &&& r == dimensions_verdict(
        rows,
        columns,
        inners,
        left.len() as int,
        right.len() as int,
        before.len() as int,
    )
    &&& r is Ok ==> after == product(left, right, rows, columns, inners)
    &&& r is Err ==> after == before
}

/// A call of `matmul_tiling` or of `multithreaded_tiled_mat_mul` with the tile
/// size `tile_size` that found `before` in the result buffer, left `after`
/// there and answered `r`.
pub open spec fn tiled_run<T: Scalar>(
    rows: int,
    columns: int,
    inners: int,
    tile_size: int,
    left: Seq<T>,
    right: Seq<T>,
    before: Seq<T>,
    after: Seq<T>,
    r: Result<(), MatMulError>,
) -> bool {
    &&& r == tiled_verdict(
        rows,
        columns,
        inners,
        tile_size,
        left.len() as int,
        right.len() as int,
        before.len() as int,
    )
    &&& r is Ok ==> after == accumulated(before, left, right, 0, columns, inners)
    &&& r is Err ==> after == before
}

/// Adding the product into zeros gives the product: on a zeroed buffer an
/// accumulating kernel leaves what the overwriting kernel leaves, entry for
/// entry and with no tolerance, because both add the same terms in the same
/// order to the same zero.
pub proof fn lemma_zeroed_accumulation_is_product<T: Scalar>(
    rows: int,
    columns: int,
    inners: int,
    left: Seq<T>,
    right: Seq<T>,
)
    requires
        0 <= rows,
        0 <= columns,
    ensures
        accumulated(zeros::<T>((rows * columns) as nat), left, right, 0, columns, inners)
            == product(left, right, rows, columns, inners),
{
    assert(accumulated(zeros::<T>((rows * columns) as nat), left, right, 0, columns, inners)
        =~= product(left, right, rows, columns, inners));
}

/// The five kernels agree. On buffers of the right lengths, with tile sizes
/// that are not zero, the four accumulating kernels run on zeros and the
/// overwriting kernel run on anything all succeed and leave the same result,
/// entry for entry.
pub proof fn lemma_kernels_agree<T: Scalar>(
    rows: usize,
    columns: usize,
    inners: usize,
    tile_size: usize,
    parallel_tile_size: usize,
    left: Seq<T>,
    right: Seq<T>,
    zeroed: Seq<T>,
    any: Seq<T>,
    naive: (Seq<T>, Result<(), MatMulError>),
    in_register: (Seq<T>, Result<(), MatMulError>),
    reordered: (Seq<T>, Result<(), MatMulError>),
    tiled: (Seq<T>, Result<(), MatMulError>),
    parallel: (Seq<T>, Result<(), MatMulError>),
)
    requires
        dimensions_match(
            rows as int,
            columns as int,
            inners as int,
            left.len() as int,
            right.len() as int,
            zeroed.len() as int,
        ),
        zeroed == zeros::<T>(zeroed.len()),
        any.len() == zeroed.len(),
        tile_size > 0,
        parallel_tile_size > 0,
        accumulating_run(
            rows as int,
            columns as int,
            inners as int,
            left,
            right,
            zeroed,
            naive.0,
            naive.1,
        ),
        overwriting_run(
            rows as int,
            columns as int,
            inners as int,
            left,
            right,
            any,
            in_register.0,
            in_register.1,
        ),
        accumulating_run(
            rows as int,
            columns as int,
            inners as int,
            left,
            right,
            zeroed,
            reordered.0,
            reordered.1,
        ),
        tiled_run(
            rows as int,
            columns as int,
            inners as int,
            tile_size as int,
            left,
            right,
            zeroed,
            tiled.0,
            tiled.1,
        ),
        tiled_run(
            rows as int,
            columns as int,
            inners as int,
            parallel_tile_size as int,
            left,
            right,
            zeroed,
            parallel.0,
            parallel.1,
        ),
    ensures
        naive.1 is Ok && in_register.1 is Ok && reordered.1 is Ok && tiled.1 is Ok && parallel.1
            is Ok,
        naive.0 == in_register.0,
        reordered.0 == in_register.0,
        tiled.0 == in_register.0,
        parallel.0 == in_register.0,
        in_register.0 == product(left, right, rows as int, columns as int, inners as int),
{
    lemma_zeroed_accumulation_is_product::<T>(
        rows as int,
        columns as int,
        inners as int,
        left,
        right,
    );
}

/// The tile size does not show in the result. Two calls of a tiled kernel
/// (`matmul_tiling` or `multithreaded_tiled_mat_mul`, the same or one of each)
/// on the same buffers, with any two tile sizes that are not zero, answer alike
/// and leave the same result.
pub proof fn lemma_tile_size_invariance<T: Scalar>(
    rows: usize,
    columns: usize,
    inners: usize,
    tile_a: usize,
    tile_b: usize,
    left: Seq<T>,
    right: Seq<T>,
    before: Seq<T>,
    run_a: (Seq<T>, Result<(), MatMulError>),
    run_b: (Seq<T>, Result<(), MatMulError>),
)
    requires
        tile_a > 0,
        tile_b > 0,
        tiled_run(
            rows as int,
            columns as int,
            inners as int,
            tile_a as int,
            left,
            right,
            before,
            run_a.0,
            run_a.1,
        ),
        tiled_run(
            rows as int,
            columns as int,
            inners as int,
            tile_b as int,
            left,
            right,
            before,
            run_b.0,
            run_b.1,
        ),
    ensures
        run_a == run_b,
{
}

/// The pool does not show in the result. Two calls of
/// `multithreaded_tiled_mat_mul` on the same buffers with the same tile size,
/// each with a pool of its own, of any number of workers and any chunk size,
/// answer alike and leave the same result.
pub proof fn lemma_worker_count_invariance<T: Scalar>(
    pool_a: WorkerPool,
    pool_b: WorkerPool,
    rows: usize,
    columns: usize,
    inners: usize,
    tile_size: usize,
    left: Seq<T>,
    right: Seq<T>,
    before: Seq<T>,
    run_a: (Seq<T>, Result<(), MatMulError>),
    run_b: (Seq<T>, Result<(), MatMulError>),
)
    requires
        tiled_run(
            rows as int,
            columns as int,
            inners as int,
            tile_size as int,
            left,
            right,
            before,
            run_a.0,
            run_a.1,
        ),
        tiled_run(
            rows as int,
            columns as int,
            inners as int,
            tile_size as int,
            left,
            right,
            before,
            run_b.0,
            run_b.1,
        ),
    ensures
        run_a == run_b,
{
}

/// The chunks of rows neither overlap nor leave a row out, whether or not the
/// chunk size divides the number of rows: every row lies in chunk
/// `row / chunk_rows` and in no other.
pub proof fn lemma_row_chunks_partition(rows: int, chunk_rows: int, row: int)
    requires
        0 < chunk_rows,
        0 <= row < rows,
    ensures
        chunk_start(row / chunk_rows, chunk_rows) <= row < chunk_end(
            row / chunk_rows,
            chunk_rows,
            rows,
        ),
        forall|k: int|
            0 <= k && chunk_start(k, chunk_rows) <= row < #[trigger] chunk_end(k, chunk_rows, rows)
                ==> k == row / chunk_rows,
{
    let home = row / chunk_rows;
    lemma_fundamental_div_mod(row, chunk_rows);
    assert(home * chunk_rows == chunk_rows * home && (home + 1) * chunk_rows == home * chunk_rows
        + chunk_rows) by (nonlinear_arith);
    assert forall|k: int|
        0 <= k && chunk_start(k, chunk_rows) <= row < #[trigger] chunk_end(
            k,
            chunk_rows,
            rows,
        ) implies k == home by {
        assert((k + 1) * chunk_rows == k * chunk_rows + chunk_rows) by (nonlinear_arith);
        lemma_fundamental_div_mod_converse(row, chunk_rows, k, row - k * chunk_rows);
    }
}

} // verus!
