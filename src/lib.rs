//! Incremental Adler-32 checksums with a scalar block engine and a
//! lane-parallel block engine that computes the same sums.

pub mod lanes;
pub mod model;
pub mod rolling;
pub mod scalar;
pub mod vectorized;

pub use model::{BASE, NMAX};
pub use rolling::{accelerated_do_blocks_if_supported, BlockEngine, RollingAdler32};
pub use scalar::do_blocks_scalar;
pub use vectorized::{do_blocks_ssse3, BLOCK_SIZE};
