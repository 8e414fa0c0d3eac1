use matmul_rs::{
    multithreaded_tiled_mat_mul, MatMulError, WorkerPool, DEFAULT_CHUNK_SIZE, DEFAULT_WORKER_COUNT,
};

#[test]
fn defaults_are_six_workers_and_chunks_of_256() {
    assert_eq!(DEFAULT_WORKER_COUNT, 6);
    assert_eq!(DEFAULT_CHUNK_SIZE, 256);
    let pool = WorkerPool::new(DEFAULT_WORKER_COUNT, DEFAULT_CHUNK_SIZE).unwrap();
    assert_eq!(pool.chunk_size(), 256);
}

#[test]
fn zero_chunk_size_is_invalid_tile_size() {
    assert!(matches!(WorkerPool::new(2, 0), Err(MatMulError::InvalidTileSize)));
    assert!(matches!(WorkerPool::new(0, 0), Err(MatMulError::InvalidTileSize)));
}

#[test]
fn zero_workers_is_pool_construction_failure() {
    assert!(matches!(WorkerPool::new(0, 4), Err(MatMulError::PoolConstructionFailure)));
}

#[test]
fn a_built_pool_is_taken_over() {
    let built = rayon::ThreadPoolBuilder::new().num_threads(2).build();
    let pool = WorkerPool::from_build(built, 3).unwrap();
    assert_eq!(pool.chunk_size(), 3);

    let left: Vec<i64> = vec![1, 2, 3, 4];
    let right: Vec<i64> = vec![5, 6, 7, 8];
    let mut result = vec![0i64; 4];
    assert_eq!(multithreaded_tiled_mat_mul(&pool, 2, 2, 2, 1, &left, &right, &mut result), Ok(()));
    assert_eq!(result, vec![19, 22, 43, 50]);
}

#[test]
fn a_built_pool_with_zero_chunk_size_is_refused() {
    let built = rayon::ThreadPoolBuilder::new().num_threads(1).build();
    assert!(matches!(WorkerPool::from_build(built, 0), Err(MatMulError::InvalidTileSize)));
}

#[test]
fn a_failed_build_is_pool_construction_failure() {
    // The global pool can be set up once; the second attempt is an error.
    let first = rayon::ThreadPoolBuilder::new().num_threads(1).build_global();
    assert!(first.is_ok());
    let second = rayon::ThreadPoolBuilder::new().num_threads(1).build_global();
    let error = second.unwrap_err();
    assert!(matches!(
        WorkerPool::from_build(Err(error), 4),
        Err(MatMulError::PoolConstructionFailure)
    ));
}
