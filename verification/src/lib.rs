//! Scoring of a small parameterised model.
//!
//! A model holds two scalar weights, a square matrix and two vectors. Its score
//! is the weighted sum of the bilinear term of the matrix with the first vector
//! and the linear term of the two vectors.
//!
//! Every number is a double held as its bit pattern in a `u64`, so that values
//! are carried and compared bit for bit. The multiplication and the addition of
//! doubles are handed to the scoring functions by the caller; the library fixes
//! which operations are made, on which operands and in which order.
//!
//! - `error`: the errors.
//! - `host`: values in the form of a dynamically typed host, and the
//!   conversions between host arrays and vectors and matrices.
//! - `model`: the model and its dimension rule.
//! - `score`: the score, as a relation between a model, the two operations and
//!   a result, and the functions that compute it.
//! - `value`: the score as a value, where the operations are functions.
//! - `zero`: the score of a model whose vector is zero.
//! - `reindex`: the score under a reindexing of the model.
//! - `record`: the record that a scoring request returns.

pub mod error;
pub mod host;
pub mod model;
pub mod record;
pub mod reindex;
pub mod score;
pub mod value;
pub mod zero;
