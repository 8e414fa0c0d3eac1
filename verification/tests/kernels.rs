use matmul_rs::{
    check_dimensions, check_tile_size, matmul_tiling, matmul_with_good_loop_order,
    multithreaded_tiled_mat_mul, naive_mat_mul, naive_mat_mul_in_reg, tiled_row_chunk, MatMulError,
    Scalar, WorkerPool,
};

const LEFT: [i64; 9] = [1, 2, 3, 4, 5, 6, 7, 8, 9];
const RIGHT: [i64; 9] = [9, 8, 7, 6, 5, 4, 3, 2, 1];
const PRODUCT: [i64; 9] = [30, 24, 18, 84, 69, 54, 138, 114, 90];

/// A sequence of small integers that depends on `seed`.
fn numbers(len: usize, seed: i64) -> Vec<i64> {
    let mut state = seed;
    let mut out = Vec::with_capacity(len);
    for _ in 0..len {
        state = (state * 73 + 41) % 1009;
        out.push(state - 500);
    }
    out
}

/// The product by the definition, entry by entry.
fn reference(rows: usize, columns: usize, inners: usize, left: &[i64], right: &[i64]) -> Vec<i64> {
    let mut out = vec![0; rows * columns];
    for row in 0..rows {
        for col in 0..columns {
            for inner in 0..inners {
                out[row * columns + col] += left[row * inners + inner] * right[inner * columns + col];
            }
        }
    }
    out
}

#[test]
fn three_by_three_with_every_kernel() {
    let left = LEFT.to_vec();
    let right = RIGHT.to_vec();

    let mut result = vec![0i64; 9];
    assert_eq!(naive_mat_mul(3, 3, 3, &left, &right, &mut result), Ok(()));
    assert_eq!(result, PRODUCT);

    let mut result = vec![0i64; 9];
    assert_eq!(naive_mat_mul_in_reg(3, 3, 3, &left, &right, &mut result), Ok(()));
    assert_eq!(result, PRODUCT);

    let mut result = vec![0i64; 9];
    assert_eq!(matmul_with_good_loop_order(3, 3, 3, &left, &right, &mut result), Ok(()));
    assert_eq!(result, PRODUCT);

    let mut result = vec![0i64; 9];
    assert_eq!(matmul_tiling(3, 3, 3, 2, &left, &right, &mut result), Ok(()));
    assert_eq!(result, PRODUCT);

    let pool = WorkerPool::new(2, 2).unwrap();
    let mut result = vec![0i64; 9];
    assert_eq!(multithreaded_tiled_mat_mul(&pool, 3, 3, 3, 2, &left, &right, &mut result), Ok(()));
    assert_eq!(result, PRODUCT);
}

#[test]
fn non_square_with_every_kernel() {
    // 2 x 3 times 3 x 4 is 2 x 4.
    let left: Vec<i64> = vec![1, 2, 3, 4, 5, 6];
    let right: Vec<i64> = vec![1, 2, 3, 4, 5, 6, 7, 8, 9, 10, 11, 12];
    let expected: Vec<i64> = vec![38, 44, 50, 56, 83, 98, 113, 128];

    let mut result = vec![0i64; 8];
    assert_eq!(naive_mat_mul(2, 4, 3, &left, &right, &mut result), Ok(()));
    assert_eq!(result, expected);

    let mut result = vec![7i64; 8];
    assert_eq!(naive_mat_mul_in_reg(2, 4, 3, &left, &right, &mut result), Ok(()));
    assert_eq!(result, expected);

    let mut result = vec![0i64; 8];
    assert_eq!(matmul_with_good_loop_order(2, 4, 3, &left, &right, &mut result), Ok(()));
    assert_eq!(result, expected);

    let mut result = vec![0i64; 8];
    assert_eq!(matmul_tiling(2, 4, 3, 2, &left, &right, &mut result), Ok(()));
    assert_eq!(result, expected);

    let pool = WorkerPool::new(2, 1).unwrap();
    let mut result = vec![0i64; 8];
    assert_eq!(multithreaded_tiled_mat_mul(&pool, 2, 4, 3, 2, &left, &right, &mut result), Ok(()));
    assert_eq!(result, expected);
}

#[test]
fn kernels_agree_on_larger_matrices() {
    let (rows, columns, inners) = (13, 9, 17);
    let left = numbers(rows * inners, 5);
    let right = numbers(inners * columns, 11);
    let expected = reference(rows, columns, inners, &left, &right);

    let mut naive = vec![0i64; rows * columns];
    assert_eq!(naive_mat_mul(rows, columns, inners, &left, &right, &mut naive), Ok(()));
    assert_eq!(naive, expected);

    let mut in_register = numbers(rows * columns, 3);
    assert_eq!(
        naive_mat_mul_in_reg(rows, columns, inners, &left, &right, &mut in_register),
        Ok(())
    );
    assert_eq!(in_register, expected);

    let mut reordered = vec![0i64; rows * columns];
    assert_eq!(
        matmul_with_good_loop_order(rows, columns, inners, &left, &right, &mut reordered),
        Ok(())
    );
    assert_eq!(reordered, expected);

    let mut tiled = vec![0i64; rows * columns];
    assert_eq!(matmul_tiling(rows, columns, inners, 5, &left, &right, &mut tiled), Ok(()));
    assert_eq!(tiled, expected);

    let pool = WorkerPool::new(4, 4).unwrap();
    let mut parallel = vec![0i64; rows * columns];
    assert_eq!(
        multithreaded_tiled_mat_mul(&pool, rows, columns, inners, 5, &left, &right, &mut parallel),
        Ok(())
    );
    assert_eq!(parallel, expected);
}

#[test]
fn tile_size_does_not_show() {
    let (rows, columns, inners) = (4, 5, 6);
    let left = numbers(rows * inners, 1);
    let right = numbers(inners * columns, 2);
    let expected = reference(rows, columns, inners, &left, &right);
    let pool = WorkerPool::new(2, 3).unwrap();
    for tile_size in [1, 2, inners, inners + 1, 4, usize::MAX] {
        let mut tiled = vec![0i64; rows * columns];
        assert_eq!(
            matmul_tiling(rows, columns, inners, tile_size, &left, &right, &mut tiled),
            Ok(())
        );
        assert_eq!(tiled, expected);

        let mut parallel = vec![0i64; rows * columns];
        assert_eq!(
            multithreaded_tiled_mat_mul(
                &pool, rows, columns, inners, tile_size, &left, &right, &mut parallel
            ),
            Ok(())
        );
        assert_eq!(parallel, expected);
    }
}

#[test]
fn worker_count_does_not_show() {
    let left = LEFT.to_vec();
    let right = RIGHT.to_vec();
    // One worker, two, and more workers than rows.
    for worker_count in [1, 2, 8] {
        let pool = WorkerPool::new(worker_count, 1).unwrap();
        let mut result = vec![0i64; 9];
        assert_eq!(
            multithreaded_tiled_mat_mul(&pool, 3, 3, 3, 2, &left, &right, &mut result),
            Ok(())
        );
        assert_eq!(result, PRODUCT);
    }
}

#[test]
fn chunk_size_does_not_show() {
    let (rows, columns, inners) = (7, 6, 5);
    let left = numbers(rows * inners, 21);
    let right = numbers(inners * columns, 22);
    let expected = reference(rows, columns, inners, &left, &right);
    // Divisors of the row count, sizes that leave a shorter last chunk, and
    // sizes beyond the row count.
    for chunk_size in [1, 2, 3, 4, 6, 7, 8, 256, usize::MAX] {
        let pool = WorkerPool::new(3, chunk_size).unwrap();
        assert_eq!(pool.chunk_size(), chunk_size);
        let mut result = vec![0i64; rows * columns];
        assert_eq!(
            multithreaded_tiled_mat_mul(&pool, rows, columns, inners, 2, &left, &right, &mut result),
            Ok(())
        );
        assert_eq!(result, expected);
    }
}

#[test]
fn one_pool_serves_many_calls() {
    let pool = WorkerPool::new(2, 2).unwrap();
    let left = LEFT.to_vec();
    let right = RIGHT.to_vec();
    for _ in 0..3 {
        let mut result = vec![0i64; 9];
        assert_eq!(
            multithreaded_tiled_mat_mul(&pool, 3, 3, 3, 1, &left, &right, &mut result),
            Ok(())
        );
        assert_eq!(result, PRODUCT);
    }
}

#[test]
fn accumulating_kernels_add_to_what_the_result_held() {
    let left = LEFT.to_vec();
    let right = RIGHT.to_vec();
    let start: Vec<i64> = vec![100, 200, 300, 400, 500, 600, 700, 800, 900];
    let expected: Vec<i64> = vec![130, 224, 318, 484, 569, 654, 838, 914, 990];

    let mut result = start.clone();
    assert_eq!(naive_mat_mul(3, 3, 3, &left, &right, &mut result), Ok(()));
    assert_eq!(result, expected);

    let mut result = start.clone();
    assert_eq!(matmul_with_good_loop_order(3, 3, 3, &left, &right, &mut result), Ok(()));
    assert_eq!(result, expected);

    let mut result = start.clone();
    assert_eq!(matmul_tiling(3, 3, 3, 2, &left, &right, &mut result), Ok(()));
    assert_eq!(result, expected);

    let pool = WorkerPool::new(2, 2).unwrap();
    let mut result = start.clone();
    assert_eq!(multithreaded_tiled_mat_mul(&pool, 3, 3, 3, 2, &left, &right, &mut result), Ok(()));
    assert_eq!(result, expected);
}

#[test]
fn accumulating_twice_adds_the_product_twice() {
    let left = LEFT.to_vec();
    let right = RIGHT.to_vec();
    let mut result = vec![0i64; 9];
    assert_eq!(matmul_tiling(3, 3, 3, 2, &left, &right, &mut result), Ok(()));
    assert_eq!(matmul_tiling(3, 3, 3, 2, &left, &right, &mut result), Ok(()));
    let twice: Vec<i64> = PRODUCT.iter().map(|v| 2 * v).collect();
    assert_eq!(result, twice);
}

#[test]
fn register_kernel_overwrites_what_the_result_held() {
    let left = LEFT.to_vec();
    let right = RIGHT.to_vec();
    let mut result: Vec<i64> = vec![100, 200, 300, 400, 500, 600, 700, 800, 900];
    assert_eq!(naive_mat_mul_in_reg(3, 3, 3, &left, &right, &mut result), Ok(()));
    assert_eq!(result, PRODUCT);
}

#[test]
fn no_inner_dimension_adds_nothing() {
    let left: Vec<i64> = vec![];
    let right: Vec<i64> = vec![];
    let start: Vec<i64> = vec![1, 2, 3, 4, 5, 6];
    let pool = WorkerPool::new(2, 1).unwrap();

    let mut result = start.clone();
    assert_eq!(naive_mat_mul(2, 3, 0, &left, &right, &mut result), Ok(()));
    assert_eq!(result, start);

    let mut result = start.clone();
    assert_eq!(matmul_with_good_loop_order(2, 3, 0, &left, &right, &mut result), Ok(()));
    assert_eq!(result, start);

    let mut result = start.clone();
    assert_eq!(matmul_tiling(2, 3, 0, 4, &left, &right, &mut result), Ok(()));
    assert_eq!(result, start);

    let mut result = start.clone();
    assert_eq!(multithreaded_tiled_mat_mul(&pool, 2, 3, 0, 4, &left, &right, &mut result), Ok(()));
    assert_eq!(result, start);

    // The overwriting kernel leaves the empty sum: zero.
    let mut result = start.clone();
    assert_eq!(naive_mat_mul_in_reg(2, 3, 0, &left, &right, &mut result), Ok(()));
    assert_eq!(result, vec![0i64; 6]);
}

#[test]
fn empty_result_is_accepted() {
    let pool = WorkerPool::new(2, 4).unwrap();
    let left: Vec<i64> = vec![1, 2, 3, 4, 5, 6];
    let none: Vec<i64> = vec![];

    // No columns: the left operand is 2 x 3, the right one 3 x 0.
    let mut result: Vec<i64> = vec![];
    assert_eq!(naive_mat_mul(2, 0, 3, &left, &none, &mut result), Ok(()));
    assert_eq!(naive_mat_mul_in_reg(2, 0, 3, &left, &none, &mut result), Ok(()));
    assert_eq!(matmul_with_good_loop_order(2, 0, 3, &left, &none, &mut result), Ok(()));
    assert_eq!(matmul_tiling(2, 0, 3, 2, &left, &none, &mut result), Ok(()));
    assert_eq!(multithreaded_tiled_mat_mul(&pool, 2, 0, 3, 2, &left, &none, &mut result), Ok(()));

    // No rows: the left operand is 0 x 3, the right one 3 x 2.
    assert_eq!(matmul_tiling(0, 2, 3, 2, &none, &left, &mut result), Ok(()));
    assert_eq!(multithreaded_tiled_mat_mul(&pool, 0, 2, 3, 2, &none, &left, &mut result), Ok(()));
    assert!(result.is_empty());
}

#[test]
fn wrong_lengths_are_invalid_dimensions() {
    let left = LEFT.to_vec();
    let right = RIGHT.to_vec();
    let short: Vec<i64> = vec![1, 2, 3, 4, 5, 6, 7, 8];
    let start: Vec<i64> = vec![5; 9];
    let pool = WorkerPool::new(2, 2).unwrap();
    let invalid = Err(MatMulError::InvalidDimensions);

    // The left operand is too short.
    let mut result = start.clone();
    assert_eq!(naive_mat_mul(3, 3, 3, &short, &right, &mut result), invalid);
    assert_eq!(naive_mat_mul_in_reg(3, 3, 3, &short, &right, &mut result), invalid);
    assert_eq!(matmul_with_good_loop_order(3, 3, 3, &short, &right, &mut result), invalid);
    assert_eq!(matmul_tiling(3, 3, 3, 2, &short, &right, &mut result), invalid);
    assert_eq!(
        multithreaded_tiled_mat_mul(&pool, 3, 3, 3, 2, &short, &right, &mut result),
        invalid
    );
    assert_eq!(result, start);

    // The right operand is too short.
    assert_eq!(naive_mat_mul(3, 3, 3, &left, &short, &mut result), invalid);
    assert_eq!(naive_mat_mul_in_reg(3, 3, 3, &left, &short, &mut result), invalid);
    assert_eq!(matmul_with_good_loop_order(3, 3, 3, &left, &short, &mut result), invalid);
    assert_eq!(matmul_tiling(3, 3, 3, 2, &left, &short, &mut result), invalid);
    assert_eq!(multithreaded_tiled_mat_mul(&pool, 3, 3, 3, 2, &left, &short, &mut result), invalid);
    assert_eq!(result, start);

    // The result is too long.
    let mut long: Vec<i64> = vec![5; 10];
    assert_eq!(naive_mat_mul(3, 3, 3, &left, &right, &mut long), invalid);
    assert_eq!(naive_mat_mul_in_reg(3, 3, 3, &left, &right, &mut long), invalid);
    assert_eq!(matmul_with_good_loop_order(3, 3, 3, &left, &right, &mut long), invalid);
    assert_eq!(matmul_tiling(3, 3, 3, 2, &left, &right, &mut long), invalid);
    assert_eq!(multithreaded_tiled_mat_mul(&pool, 3, 3, 3, 2, &left, &right, &mut long), invalid);
    assert_eq!(long, vec![5i64; 10]);
}

#[test]
fn zero_tile_size_is_invalid_tile_size() {
    let left = LEFT.to_vec();
    let right = RIGHT.to_vec();
    let start: Vec<i64> = vec![5; 9];
    let pool = WorkerPool::new(2, 2).unwrap();

    let mut result = start.clone();
    assert_eq!(
        matmul_tiling(3, 3, 3, 0, &left, &right, &mut result),
        Err(MatMulError::InvalidTileSize)
    );
    assert_eq!(
        multithreaded_tiled_mat_mul(&pool, 3, 3, 3, 0, &left, &right, &mut result),
        Err(MatMulError::InvalidTileSize)
    );
    assert_eq!(result, start);
}

#[test]
fn dimensions_are_judged_before_the_tile_size() {
    let left = LEFT.to_vec();
    let short: Vec<i64> = vec![1, 2, 3];
    let pool = WorkerPool::new(1, 1).unwrap();
    let mut result = vec![0i64; 9];
    assert_eq!(
        matmul_tiling(3, 3, 3, 0, &left, &short, &mut result),
        Err(MatMulError::InvalidDimensions)
    );
    assert_eq!(
        multithreaded_tiled_mat_mul(&pool, 3, 3, 3, 0, &left, &short, &mut result),
        Err(MatMulError::InvalidDimensions)
    );
}

#[test]
fn dimensions_too_large_for_any_buffer_are_invalid() {
    // rows * inners does not fit a usize; taken modulo 2^64 it would be 0.
    let rows = 1usize << (usize::BITS - 1);
    let none: Vec<i64> = vec![];
    let mut result: Vec<i64> = vec![];
    assert_eq!(check_dimensions(rows, 0, 2, 0, 0, 0), Err(MatMulError::InvalidDimensions));
    assert_eq!(
        naive_mat_mul(rows, 0, 2, &none, &none, &mut result),
        Err(MatMulError::InvalidDimensions)
    );
    assert_eq!(
        matmul_tiling(rows, 0, 2, 1, &none, &none, &mut result),
        Err(MatMulError::InvalidDimensions)
    );
}

#[test]
fn check_dimensions_compares_each_length() {
    assert_eq!(check_dimensions(2, 4, 3, 6, 12, 8), Ok(()));
    assert_eq!(check_dimensions(2, 4, 3, 5, 12, 8), Err(MatMulError::InvalidDimensions));
    assert_eq!(check_dimensions(2, 4, 3, 6, 11, 8), Err(MatMulError::InvalidDimensions));
    assert_eq!(check_dimensions(2, 4, 3, 6, 12, 9), Err(MatMulError::InvalidDimensions));
    // The same lengths with rows and columns exchanged.
    assert_eq!(check_dimensions(4, 2, 3, 6, 12, 8), Err(MatMulError::InvalidDimensions));
    assert_eq!(check_dimensions(0, 0, 0, 0, 0, 0), Ok(()));
}

#[test]
fn check_tile_size_refuses_zero_only() {
    assert_eq!(check_tile_size(0), Err(MatMulError::InvalidTileSize));
    assert_eq!(check_tile_size(1), Ok(()));
    assert_eq!(check_tile_size(usize::MAX), Ok(()));
}

#[test]
fn a_chunk_is_worked_on_by_its_rows() {
    let left = LEFT.to_vec();
    let right = RIGHT.to_vec();
    // Three rows in chunks of two: chunk 0 holds rows 0 and 1, chunk 1 holds row 2.
    let mut first = vec![0i64; 6];
    tiled_row_chunk(0, 2, 2, 3, 3, 3, 2, &left, &right, &mut first);
    assert_eq!(first, vec![30, 24, 18, 84, 69, 54]);

    let mut last = vec![1i64; 3];
    tiled_row_chunk(1, 2, 2, 3, 3, 3, 2, &left, &right, &mut last);
    assert_eq!(last, vec![139, 115, 91]);
}

#[test]
fn integer_scalars_wrap_around() {
    assert_eq!(<i64 as Scalar>::zero(), 0);
    assert_eq!(Scalar::plus(2i64, 3i64), 5);
    assert_eq!(Scalar::times(-4i64, 3i64), -12);
    assert_eq!(Scalar::plus(i64::MAX, 1i64), i64::MIN);
    assert_eq!(Scalar::times(i64::MAX, 2i64), -2);

    let left: Vec<i64> = vec![i64::MAX, 1];
    let right: Vec<i64> = vec![1, 1];
    let mut result = vec![0i64];
    assert_eq!(naive_mat_mul(1, 1, 2, &left, &right, &mut result), Ok(()));
    assert_eq!(result, vec![i64::MIN]);
}
