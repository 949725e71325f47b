//! The token printer: lays tokens out line by line with google-java-format
//! spacing, indentation and line-breaking heuristics.
pub mod toks;
pub mod symbols;
pub mod frames;
pub mod analysis;
pub mod output;
pub mod engine;
pub use engine::{PrintedDoc, print};
