//! A small reverse-mode automatic-differentiation engine over a recorded
//! computation graph, with device-kernel generation for layer normalisation.
pub mod graph;
pub mod tensor;
pub mod kernel;
pub mod layer_norm;
