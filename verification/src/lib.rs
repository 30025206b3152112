//! Matrix multiplication split into per-cell tasks for a pool of workers,
//! together with the sequential product it is measured against.
pub mod algebra;
pub mod engine;
pub mod error;
pub mod laws;
pub mod matrix;
pub mod metrics;
pub mod pool;
pub mod text;
pub mod vector;

pub use engine::{multiply_staged, MsgInput, MsgOutput, NUM_THREADS};
pub use error::EngineError;
pub use matrix::{multiply, Matrix};
pub use metrics::Metrics;
pub use pool::{multiply_v1, Msg};
pub use vector::{dot_product, Vector};
