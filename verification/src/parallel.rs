//! The parallel tiled kernel: the rows of the result are cut into chunks, and
//! each chunk is worked on by one worker of a pool.
use crate::block::accumulate_row_block;
use crate::error::{check_dimensions, check_tile_size, tiled_verdict, MatMulError};
use crate::model::{accumulated, lemma_block_step, lemma_row_of_entry, partial};
use crate::scalar::Scalar;
use rayon::iter::{IndexedParallelIterator, ParallelIterator};
use rayon::slice::ParallelSliceMut;
use vstd::arithmetic::div_mod::{lemma_fundamental_div_mod, lemma_fundamental_div_mod_converse};
use vstd::prelude::*;

verus! {

/// The first row of chunk `k`, where every chunk but the last holds
/// `chunk_rows` rows.
pub open spec fn chunk_start(k: int, chunk_rows: int) -> int {
    k * chunk_rows
}

/// One past the last row of chunk `k`: the last chunk is cut off at `rows`.
pub open spec fn chunk_end(k: int, chunk_rows: int, rows: int) -> int {
    if (k + 1) * chunk_rows <= rows {
        (k + 1) * chunk_rows
    } else {
        rows
    }
}

/// Chunk `k` exists and a buffer of `len` entries holds just its rows,
/// `columns` entries to a row.
pub open spec fn chunk_fits(k: int, chunk_rows: int, rows: int, columns: int, len: int) -> bool {
    &&& chunk_start(k, chunk_rows) < rows
    &&& len == (chunk_end(k, chunk_rows, rows) - chunk_start(k, chunk_rows)) * columns
}

/// `from + step`, cut off at `limit`, without overflow.
fn clamped_step(from: usize, step: usize, limit: usize) -> (to: usize)
    requires
        from <= limit,
    ensures
        to == (if from + step <= limit {
            from + step
        } else {
            limit as int
        }),
{
    if step >= limit - from {
        limit
    } else {
        from + step
    }
}

/// The work of one worker: the tiled product on chunk `chunk_index` of the
/// rows, whose entries are `chunk`. The columns are taken `chunk_columns` at a
/// time and the inner dimension `tile_size` at a time; within a block the rows
/// of the chunk take the block's terms one after another.
///
/// Every entry of `chunk` ends up with all `inners` terms of its row and
/// column added to it, in the order of the inner dimension.
#[verifier::loop_isolation(false)]
pub fn tiled_row_chunk<T: Scalar>(
    chunk_index: usize,
    chunk_rows: usize,
    chunk_columns: usize,
    rows: usize,
    columns: usize,
    inners: usize,
    tile_size: usize,
    left: &[T],
    right: &[T],
    chunk: &mut [T],
)
    requires
        chunk_rows > 0,
        chunk_columns > 0,
        tile_size > 0,
        left@.len() == rows * inners,
        right@.len() == inners * columns,
        chunk_fits(
            chunk_index as int,
            chunk_rows as int,
            rows as int,
            columns as int,
            old(chunk)@.len() as int,
        ),
    ensures
        final(chunk)@ == accumulated(
            old(chunk)@,
            left@,
            right@,
            chunk_start(chunk_index as int, chunk_rows as int),
            columns as int,
            inners as int,
        ),
{
    let ghost before = chunk@;
    let ghost first_row = chunk_start(chunk_index as int, chunk_rows as int);
    let ghost len = chunk.len();
    assert(0 <= chunk_index * chunk_rows && (chunk_index + 1) * chunk_rows == chunk_index
        * chunk_rows + chunk_rows) by (nonlinear_arith);
    let row_start: usize = chunk_index * chunk_rows;
    let row_end: usize = clamped_step(row_start, chunk_rows, rows);
    let chunk_height: usize = row_end - row_start;
    let mut column_tile: usize = 0;
    while column_tile < columns
        invariant
            column_tile <= columns,
            chunk@.len() == before.len(),
            forall|i: int|
                0 <= i < before.len() ==> #[trigger] chunk@[i] == partial(
                    before,
                    left@,
                    right@,
                    first_row,
                    columns as int,
                    inners as int,
                    i,
                    if i % (columns as int) < column_tile {
                        inners as int
                    } else {
                        0
                    },
                ),
        decreases columns - column_tile,
    {
        let column_end: usize = clamped_step(column_tile, chunk_columns, columns);
        let mut inner_tile: usize = 0;
        while inner_tile < inners
            invariant
                inner_tile <= inners,
                chunk@.len() == before.len(),
                forall|i: int|
                    0 <= i < before.len() ==> #[trigger] chunk@[i] == partial(
                        before,
                        left@,
                        right@,
                        first_row,
                        columns as int,
                        inners as int,
                        i,
                        if i % (columns as int) < column_tile {
                            inners as int
                        } else if i % (columns as int) < column_end {
                            inner_tile as int
                        } else {
                            0
                        },
                    ),
            decreases inners - inner_tile,
        {
            let tile_end: usize = clamped_step(inner_tile, tile_size, inners);
            let mut local_row: usize = 0;
            while local_row < chunk_height
                invariant
                    local_row <= chunk_height,
                    chunk@.len() == before.len(),
                    forall|i: int|
                        0 <= i < before.len() ==> #[trigger] chunk@[i] == partial(
                            before,
                            left@,
                            right@,
                            first_row,
                            columns as int,
                            inners as int,
                            i,
                            if i % (columns as int) < column_tile {
                                inners as int
                            } else if i % (columns as int) < column_end {
                                if i / (columns as int) < local_row {
                                    tile_end as int
                                } else {
                                    inner_tile as int
                                }
                            } else {
                                0
                            },
                        ),
                decreases chunk_height - local_row,
            {
                let ghost now = chunk@;
                assert(0 <= local_row * columns && local_row * columns + columns <= chunk_height
                    * columns && (row_start + local_row + 1) * inners <= rows * inners)
                    by (nonlinear_arith)
                    requires
                        local_row < chunk_height,
                        row_start + chunk_height <= rows,
                ;
                accumulate_row_block(
                    columns,
                    inners,
                    row_start + local_row,
                    local_row * columns,
                    column_tile,
                    column_end,
                    inner_tile,
                    tile_end,
                    left,
                    right,
                    chunk,
                );
                assert forall|i: int| 0 <= i < before.len() implies #[trigger] chunk@[i] == partial(
                    before,
                    left@,
                    right@,
                    first_row,
                    columns as int,
                    inners as int,
                    i,
                    if i % (columns as int) < column_tile {
                        inners as int
                    } else if i % (columns as int) < column_end {
                        if i / (columns as int) < local_row + 1 {
                            tile_end as int
                        } else {
                            inner_tile as int
                        }
                    } else {
                        0
                    },
                ) by {
                    lemma_block_step(
                        before,
                        now,
                        chunk@,
                        left@,
                        right@,
                        first_row,
                        columns as int,
                        inners as int,
                        local_row as int,
                        column_tile as int,
                        column_end as int,
                        inner_tile as int,
                        tile_end as int,
                        i,
                    );
                }
                local_row += 1;
            }
            assert forall|i: int| 0 <= i < before.len() implies #[trigger] chunk@[i] == partial(
                before,
                left@,
                right@,
                first_row,
                columns as int,
                inners as int,
                i,
                if i % (columns as int) < column_tile {
                    inners as int
                } else if i % (columns as int) < column_end {
                    tile_end as int
                } else {
                    0
                },
            ) by {
                lemma_row_of_entry(columns as int, chunk_height as int, i);
            }
            inner_tile = tile_end;
        }
        column_tile = column_end;
    }
    assert(chunk@ =~= accumulated(before, left@, right@, first_row, columns as int, inners as int));
}

/// rayon's thread pool.
#[verifier::external_type_specification]
#[verifier::external_body]
pub struct ExThreadPool(rayon::ThreadPool);

/// The error of rayon's pool builder.
#[verifier::external_type_specification]
#[verifier::external_body]
pub struct ExThreadPoolBuildError(rayon::ThreadPoolBuildError);

/// Chunk `k` of a buffer cut into pieces of `chunk_len` entries, the last of
/// which may be shorter.
pub open spec fn chunk_of<T>(buffer: Seq<T>, k: int, chunk_len: int) -> Seq<T> {
    buffer.subrange(
        k * chunk_len,
        if (k + 1) * chunk_len <= buffer.len() {
            (k + 1) * chunk_len
        } else {
            buffer.len() as int
        },
    )
}

/// Asks rayon for a pool: `ThreadPoolBuilder::new().num_threads(worker_count)
/// .build()`. Whether the pool comes about is for rayon and the machine to
/// say, so nothing is claimed of the answer.
#[verifier::external_body]
fn build_pool(worker_count: usize) -> (built: Result<
    rayon::ThreadPool,
    rayon::ThreadPoolBuildError,
>) {
    rayon::ThreadPoolBuilder::new().num_threads(worker_count).build()
}

/// Runs `tiled_row_chunk` on every chunk of `result`, inside `pool`:
/// `ThreadPool::install` around `par_chunks_mut(chunk_len)`, `enumerate` and
/// `for_each`.
///
/// Claimed of rayon: `par_chunks_mut` cuts the slice into consecutive pieces of
/// `chunk_len` entries that do not overlap, the last one taking what is left;
/// `enumerate` numbers them from zero in that order; `for_each` hands every
/// numbered piece to the closure once; and `install` returns when all of them
/// are done. So each piece ends up as `tiled_row_chunk` leaves it, and the
/// slice has no entry outside the pieces. `par_chunks_mut` panics on a
/// `chunk_len` of zero, which is left out, and so is every call in which a
/// piece would not be what `tiled_row_chunk` asks for.
#[verifier::external_body]
fn for_each_row_chunk<T: Scalar + Send + Sync>(
    pool: &rayon::ThreadPool,
    chunk_len: usize,
    chunk_rows: usize,
    chunk_columns: usize,
    rows: usize,
    columns: usize,
    inners: usize,
    tile_size: usize,
    left: &[T],
    right: &[T],
    result: &mut [T],
)
    requires
        chunk_len > 0,
        chunk_rows > 0,
        chunk_columns > 0,
        tile_size > 0,
        left@.len() == rows * inners,
        right@.len() == inners * columns,
        forall|k: int|
            0 <= k && k * chunk_len < old(result)@.len() ==> chunk_fits(
                k,
                chunk_rows as int,
                rows as int,
                columns as int,
                (#[trigger] chunk_of(old(result)@, k, chunk_len as int)).len() as int,
            ),
    ensures
        final(result)@.len() == old(result)@.len(),
        forall|k: int|
            0 <= k && k * chunk_len < old(result)@.len() ==> #[trigger] chunk_of(
                final(result)@,
                k,
                chunk_len as int,
            ) == accumulated(
                chunk_of(old(result)@, k, chunk_len as int),
                left@,
                right@,
                chunk_start(k, chunk_rows as int),
                columns as int,
                inners as int,
            ),
{
    pool.install(|| {
        result.par_chunks_mut(chunk_len).enumerate().for_each(|(k, chunk)| {
            tiled_row_chunk(
                k, chunk_rows, chunk_columns, rows, columns, inners, tile_size, left, right, chunk,
            )
        })
    })
}

/// A buffer of `rows` rows, cut into pieces of `chunk_rows` rows, is cut between
/// rows: piece `k` holds the rows of chunk `k` and nothing else, also where it
/// is the last piece and shorter than the others.
pub proof fn lemma_chunk_holds_whole_rows<T>(
    buffer: Seq<T>,
    rows: int,
    columns: int,
    chunk_rows: int,
    chunk_len: int,
    k: int,
)
    requires
        0 < columns,
        0 < chunk_rows,
        chunk_len == chunk_rows * columns,
        buffer.len() == rows * columns,
        0 <= k,
        k * chunk_len < buffer.len(),
    ensures
        chunk_fits(k, chunk_rows, rows, columns, chunk_of(buffer, k, chunk_len).len() as int),
{
    let first = k * chunk_rows;
    let next = (k + 1) * chunk_rows;
    assert(k * chunk_len == first * columns && (k + 1) * chunk_len == next * columns)
        by (nonlinear_arith)
        requires
            chunk_len == chunk_rows * columns,
            first == k * chunk_rows,
            next == (k + 1) * chunk_rows,
    ;
    assert(first < rows && 0 <= first) by (nonlinear_arith)
        requires
            first * columns < rows * columns,
            0 < columns,
            first == k * chunk_rows,
            0 <= k,
            0 < chunk_rows,
    ;
    assert((next <= rows) <==> (next * columns <= rows * columns)) by (nonlinear_arith)
        requires
            0 < columns,
    ;
    assert((next - first) * columns == next * columns - first * columns && (rows - first) * columns
        == rows * columns - first * columns) by (nonlinear_arith);
    assert(0 <= first * columns <= next * columns) by (nonlinear_arith)
        requires
            0 <= first,
            0 < columns,
            0 < chunk_rows,
            first == k * chunk_rows,
            next == (k + 1) * chunk_rows,
    ;
    let piece = chunk_of(buffer, k, chunk_len);
    if next <= rows {
        assert(piece.len() == next * columns - first * columns);
    } else {
        assert(piece.len() == rows * columns - first * columns);
    }
}

/// Where every chunk of `after` is the accumulated chunk of `before`, `after`
/// is the accumulated `before`: the chunks cover the buffer without overlap,
/// and entry `j` of chunk `k` is entry `k * chunk_len + j` of the whole, in row
/// `k * chunk_rows + j / columns`.
pub proof fn lemma_chunks_cover<T: Scalar>(
    before: Seq<T>,
    after: Seq<T>,
    left: Seq<T>,
    right: Seq<T>,
    columns: int,
    inners: int,
    chunk_rows: int,
    chunk_len: int,
)
    requires
        0 < columns,
        0 < chunk_rows,
        chunk_len == chunk_rows * columns,
        after.len() == before.len(),
        forall|k: int|
            0 <= k && k * chunk_len < before.len() ==> #[trigger] chunk_of(after, k, chunk_len)
                == accumulated(
                chunk_of(before, k, chunk_len),
                left,
                right,
                chunk_start(k, chunk_rows),
                columns,
                inners,
            ),
    ensures
        after == accumulated(before, left, right, 0, columns, inners),
{
    assert(0 < chunk_len) by (nonlinear_arith)
        requires
            0 < columns,
            0 < chunk_rows,
            chunk_len == chunk_rows * columns,
    ;
    assert forall|i: int| 0 <= i < before.len() implies after[i] == partial(
        before,
        left,
        right,
        0,
        columns,
        inners,
        i,
        inners,
    ) by {
        let k = i / chunk_len;
        let j = i % chunk_len;
        lemma_fundamental_div_mod(i, chunk_len);
        lemma_fundamental_div_mod(j, columns);
        assert(0 <= k && k * chunk_len == chunk_len * k && (k + 1) * chunk_len == k * chunk_len
            + chunk_len) by (nonlinear_arith)
            requires
                i == chunk_len * k + j,
                0 <= i,
                j < chunk_len,
                0 < chunk_len,
        ;
        let piece_before = chunk_of(before, k, chunk_len);
        let piece_after = chunk_of(after, k, chunk_len);
        assert(piece_after == accumulated(
            piece_before,
            left,
            right,
            chunk_start(k, chunk_rows),
            columns,
            inners,
        ));
        assert(piece_after[j] == after[i]);
        assert(piece_before[j] == before[i]);
        let row = k * chunk_rows + j / columns;
        assert(i == row * columns + j % columns) by (nonlinear_arith)
            requires
                i == chunk_len * k + j,
                chunk_len == chunk_rows * columns,
                j == columns * (j / columns) + j % columns,
                row == k * chunk_rows + j / columns,
        ;
        lemma_fundamental_div_mod_converse(i, columns, row, j % columns);
    }
    assert(after =~= accumulated(before, left, right, 0, columns, inners));
}

/// A pool of workers for the parallel kernel, with the number of rows that one
/// worker takes at a time. It is made once and serves any number of calls.
pub struct WorkerPool {
    pool: rayon::ThreadPool,
    chunk_size: usize,
}

/// The number of workers of a pool that no other number was asked of.
pub const DEFAULT_WORKER_COUNT: usize = 6;

/// The number of rows, and of columns, that a worker takes at a time where no
/// other number was asked.
pub const DEFAULT_CHUNK_SIZE: usize = 256;

impl WorkerPool {
    /// A chunk holds at least one row.
    #[verifier::type_invariant]
    spec fn well_formed(self) -> bool {
        self.chunk_size > 0
    }

    /// The rayon pool that does the work.
    pub closed spec fn threads(&self) -> rayon::ThreadPool {
        self.pool
    }

    /// The number of rows that a worker takes at a time, which is also the
    /// number of columns that it takes at a time within those rows.
    pub closed spec fn spec_chunk_size(&self) -> usize {
        self.chunk_size
    }

    /// Makes a `WorkerPool` of what rayon's builder answered: the pool where it
    /// built one and the chunk size is not zero. A chunk size of zero is
    /// `InvalidTileSize`, whatever rayon said; rayon's error is
    /// `PoolConstructionFailure`.
    pub fn from_build(
        built: Result<rayon::ThreadPool, rayon::ThreadPoolBuildError>,
        chunk_size: usize,
    ) -> (r: Result<WorkerPool, MatMulError>)
        ensures
            match r {
                Ok(p) => chunk_size > 0 && built is Ok && p.threads() == built->Ok_0
                    && p.spec_chunk_size() == chunk_size,
                Err(e) => e == (if chunk_size == 0 {
                    MatMulError::InvalidTileSize
                } else {
                    MatMulError::PoolConstructionFailure
                }) && (chunk_size == 0 || built is Err),
            },
    {
        if chunk_size == 0 {
            return Err(MatMulError::InvalidTileSize);
        }
        match built {
            Ok(pool) => Ok(WorkerPool { pool, chunk_size }),
            Err(_) => Err(MatMulError::PoolConstructionFailure),
        }
    }

    /// A pool of `worker_count` workers that take `chunk_size` rows at a time.
    ///
    /// A chunk size of zero is `InvalidTileSize`. No pool has zero workers:
    /// that is `PoolConstructionFailure`, as is rayon's refusal to build the
    /// pool, which depends on the machine.
    pub fn new(worker_count: usize, chunk_size: usize) -> (r: Result<WorkerPool, MatMulError>)
        ensures
            match r {
                Ok(p) => chunk_size > 0 && worker_count > 0 && p.spec_chunk_size() == chunk_size,
                Err(e) => e == (if chunk_size == 0 {
                    MatMulError::InvalidTileSize
                } else {
                    MatMulError::PoolConstructionFailure
                }),
            },
    {
        if chunk_size == 0 {
            return Err(MatMulError::InvalidTileSize);
        }
        if worker_count == 0 {
            return Err(MatMulError::PoolConstructionFailure);
        }
        WorkerPool::from_build(build_pool(worker_count), chunk_size)
    }

    /// The number of rows that a worker takes at a time.
    #[verifier::when_used_as_spec(spec_chunk_size)]
    pub fn chunk_size(&self) -> (n: usize)
        ensures
            n == self.spec_chunk_size(),
            n > 0,
    {
        proof {
            use_type_invariant(self);
        }
        self.chunk_size
    }
}

/// The parallel tiled kernel: adds the product of `left` (`rows x inners`) and
/// `right` (`inners x columns`) into `result` (`rows x columns`), all
/// row-major. The rows are cut into chunks of the pool's chunk size, the last
/// one shorter where the size does not divide `rows`; every row lies in one
/// chunk, and each chunk is worked on by one worker of the pool.
///
/// The result does not depend on the pool, on its chunk size or on
/// `tile_size`: every entry takes its terms in the order of the inner
/// dimension. A caller who wants the product itself hands in zeros.
///
/// Buffers of the wrong length are refused with `InvalidDimensions`, then a
/// `tile_size` of zero with `InvalidTileSize`; `result` is then left as it was.
pub fn multithreaded_tiled_mat_mul<T: Scalar + Send + Sync>(
    pool: &WorkerPool,
    rows: usize,
    columns: usize,
    inners: usize,
    tile_size: usize,
    left: &[T],
    right: &[T],
    result: &mut [T],
) -> (r: Result<(), MatMulError>)
    ensures
        r == tiled_verdict(
            rows as int,
            columns as int,
            inners as int,
            tile_size as int,
            left@.len() as int,
            right@.len() as int,
            old(result)@.len() as int,
        ),
        r is Ok ==> final(result)@ == accumulated(
            old(result)@,
            left@,
            right@,
            0,
            columns as int,
            inners as int,
        ),
        r is Err ==> final(result)@ == old(result)@,
{
    if check_dimensions(rows, columns, inners, left.len(), right.len(), result.len()).is_err() {
        return Err(MatMulError::InvalidDimensions);
    }
    if check_tile_size(tile_size).is_err() {
        return Err(MatMulError::InvalidTileSize);
    }
    if rows == 0 || columns == 0 {
        assert(rows * columns == 0) by (nonlinear_arith)
            requires
                rows == 0 || columns == 0,
        ;
        assert(result@ =~= accumulated(
            result@,
            left@,
            right@,
            0,
            columns as int,
            inners as int,
        ));
        return Ok(());
    }
    let chunk_columns = pool.chunk_size();
    let chunk_rows: usize = if chunk_columns < rows {
        chunk_columns
    } else {
        rows
    };
    assert(0 < chunk_rows * columns <= rows * columns) by (nonlinear_arith)
        requires
            0 < chunk_rows <= rows,
            0 < columns,
    ;
    let chunk_len: usize = chunk_rows * columns;
    let ghost before = result@;
    assert forall|k: int| 0 <= k && k * chunk_len < before.len() implies chunk_fits(
        k,
        chunk_rows as int,
        rows as int,
        columns as int,
        (#[trigger] chunk_of(before, k, chunk_len as int)).len() as int,
    ) by {
        lemma_chunk_holds_whole_rows(
            before,
            rows as int,
            columns as int,
            chunk_rows as int,
            chunk_len as int,
            k,
        );
    }
    for_each_row_chunk(
        &pool.pool,
        chunk_len,
        chunk_rows,
        chunk_columns,
        rows,
        columns,
        inners,
        tile_size,
        left,
        right,
        result,
    );
    proof {
        lemma_chunks_cover(
            before,
            result@,
            left@,
            right@,
            columns as int,
            inners as int,
            chunk_rows as int,
            chunk_len as int,
        );
    }
    Ok(())
}

} // verus!
