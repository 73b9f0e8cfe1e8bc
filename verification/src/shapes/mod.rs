//! Shapes, axis sets and the broadcast / reduce relation between shapes.

pub mod axes;
pub mod shape;
pub mod broadcasts;
pub mod strided;
