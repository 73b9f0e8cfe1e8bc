//! Reverse-mode automatic differentiation for tensors.
//!
//! A forward operation on a traced tensor appends a backward operation to the
//! tensor's tape. Replaying the tape in reverse fills a gradient store keyed by
//! the identifiers of the tensors that took part.

pub mod dtype;
pub mod error;
pub mod gradients;
pub mod nn;
pub mod shapes;
pub mod tape;
pub mod tensor;
pub mod tensor_ops;
pub mod unique_id;
