//! Explanations and verified repair planning for Rust compiler diagnostics.

pub mod analyzer;
pub mod context;
pub mod diagnostics;
pub mod engine;
pub mod explain;
pub mod fixer;
pub mod lines;
pub mod order;
pub mod patch;
pub mod repair;
pub mod repair_context;
pub mod sorting;
pub mod text;
pub mod transform;
pub mod unicode;
pub mod verification;
