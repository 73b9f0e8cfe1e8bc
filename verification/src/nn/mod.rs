//! Layers: what they have in common, and a transformer encoder block built
//! from layers.

pub mod activations;
pub mod module;
pub mod transformer;
