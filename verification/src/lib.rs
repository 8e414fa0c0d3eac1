//! Dense matrix product `C = A * B` on flat, row-major buffers, as a ladder of
//! kernels that differ in memory access and share one contract: every entry of
//! the result is the running sum of the products along the inner dimension,
//! added from left to right.

mod block;
pub mod equivalence;
pub mod error;
pub mod kernels;
pub mod model;
pub mod parallel;
pub mod scalar;

pub use error::{check_dimensions, check_tile_size, MatMulError};
pub use kernels::{matmul_tiling, matmul_with_good_loop_order, naive_mat_mul, naive_mat_mul_in_reg};
pub use parallel::{
    multithreaded_tiled_mat_mul, tiled_row_chunk, WorkerPool, DEFAULT_CHUNK_SIZE,
    DEFAULT_WORKER_COUNT,
};
pub use scalar::Scalar;
