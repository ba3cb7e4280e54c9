//! Expansion of custom rename rules: a template with placeholders becomes a
//! file name, given the path being renamed and its position in the batch.

pub mod counter;
pub mod expand;
pub mod laws;
pub mod metadata;
pub mod number;
pub mod placeholders;
pub mod rules;
pub mod text;

pub use expand::rule_custom;
