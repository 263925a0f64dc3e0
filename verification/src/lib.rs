//! Dense matrices of doubles and their product, computed on one thread or
//! cell by cell on a pool of workers.
//!
//! The verifier has no model of floating-point arithmetic, so a matrix
//! carries each double as its 64-bit pattern and every operation that needs
//! arithmetic, or the text of a number, takes it from its caller as a
//! function. What is proved is everything around those functions: the
//! row-major layout, which terms enter a dot product and in which order,
//! that every cell of a parallel product is written by exactly one job, and
//! the grammar of matrix text.

pub mod codec;
pub mod error;
pub mod laws;
pub mod matrix;
pub mod parallel;
pub mod product;
pub mod text;

pub use error::MatrixError;
pub use error::ParseFault;
pub use matrix::Grid;
pub use matrix::Matrix;
pub use matrix::ONE;
pub use matrix::ZERO;
pub use parallel::WorkerPool;
