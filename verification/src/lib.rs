//! Conversion between a tagged document value and a generic tree
//! (null, boolean, number, text, list, object).

pub mod value;
pub mod tree;
pub mod hint;
pub mod keys;
pub mod hex;
pub mod mismatch;
pub mod codec;
pub mod laws;
pub mod field;
pub mod same;
pub mod fields;
pub mod config;
