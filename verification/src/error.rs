//! What a kernel rejects before it computes anything.
use vstd::prelude::*;

verus! {

/// Why a call was refused.
#[derive(Debug, Clone, Copy, PartialEq, Eq, Structural)]
pub enum MatMulError {
    /// A buffer's length is not the product of its two dimensions.
    InvalidDimensions,
    /// A tile or chunk size of zero.
    InvalidTileSize,
    /// The worker pool could not be created with the requested worker count.
    PoolConstructionFailure,
}

/// The three buffers have the lengths that `rows`, `columns` and `inners` ask
/// for: `rows * inners`, `inners * columns` and `rows * columns`.
pub open spec fn dimensions_match(
    rows: int,
    columns: int,
    inners: int,
    left_len: int,
    right_len: int,
    result_len: int,
) -> bool {
    &&& left_len == rows * inners
    &&& right_len == inners * columns
    &&& result_len == rows * columns
}

/// What `check_dimensions` answers.
pub open spec fn dimensions_verdict(
    rows: int,
    columns: int,
    inners: int,
    left_len: int,
    right_len: int,
    result_len: int,
) -> Result<(), MatMulError> {
    if dimensions_match(rows, columns, inners, left_len, right_len, result_len) {
        Ok(())
    } else {
        Err(MatMulError::InvalidDimensions)
    }
}

/// What `check_tile_size` answers.
pub open spec fn tile_verdict(tile_size: int) -> Result<(), MatMulError> {
    if tile_size == 0 {
        Err(MatMulError::InvalidTileSize)
    } else {
        Ok(())
    }
}

/// What a tiled kernel answers: the dimensions are judged first, then the tile
/// size.
pub open spec fn tiled_verdict(
    rows: int,
    columns: int,
    inners: int,
    tile_size: int,
    left_len: int,
    right_len: int,
    result_len: int,
) -> Result<(), MatMulError> {
    if !dimensions_match(rows, columns, inners, left_len, right_len, result_len) {
        Err(MatMulError::InvalidDimensions)
    } else {
        tile_verdict(tile_size)
    }
}

/// `len == a * b`, computed without overflow: a product that does not fit a
/// `usize` is the length of no buffer.
fn is_product(len: usize, a: usize, b: usize) -> (r: bool)
    ensures
        r == (len == a * b),
{
    match a.checked_mul(b) {
        Some(p) => p == len,
        None => false,
    }
}

/// Accepts the buffer lengths of a `rows x inners` left operand, an
/// `inners x columns` right operand and a `rows x columns` result, and refuses
/// any others with `InvalidDimensions`.
pub fn check_dimensions(
    rows: usize,
    columns: usize,
    inners: usize,
    left_len: usize,
    right_len: usize,
    result_len: usize,
) -> (r: Result<(), MatMulError>)
    ensures
        r == dimensions_verdict(
            rows as int,
            columns as int,
            inners as int,
            left_len as int,
            right_len as int,
            result_len as int,
        ),
{
    if is_product(left_len, rows, inners) && is_product(right_len, inners, columns) && is_product(
        result_len,
        rows,
        columns,
    ) {
        Ok(())
    } else {
        Err(MatMulError::InvalidDimensions)
    }
}

/// Refuses a tile size of zero with `InvalidTileSize`.
pub fn check_tile_size(tile_size: usize) -> (r: Result<(), MatMulError>)
    ensures
        r == tile_verdict(tile_size as int),
{
    if tile_size == 0 {
        Err(MatMulError::InvalidTileSize)
    } else {
        Ok(())
    }
}

} // verus!
