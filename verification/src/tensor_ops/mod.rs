//! Forward operations on tensors. Each records on the tape how to carry the
//! gradient of its output back to its inputs.

pub mod add;
pub mod broadcast_to;
pub mod impl_mean;
pub mod leaky_relu;
pub mod ops;
pub mod prelu;
