//! A small dense matrix value type, generic over its scalar, with shape-checked
//! arithmetic and a tabular text rendering.

pub mod laws;
pub mod matrix;
pub mod render;
