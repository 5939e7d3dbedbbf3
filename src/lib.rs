//! Flattening of a continent/country/city columnar dataset and typed rendering
//! of columnar cells to text.

pub mod columnar;
pub mod decimal;
pub mod denormalize;
pub mod error;
pub mod render;
