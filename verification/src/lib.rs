//! Strategies that generate random, type-conformant values for ABI
//! parameter shapes, for property-based testing of contract calls: pure
//! random generation, and generation biased toward a corpus of previously
//! observed 32-byte words.

pub mod convert;
pub mod laws;
pub mod shape;
pub mod strategy;
pub mod value;
pub mod word;

pub use shape::ParamShape;
pub use strategy::{fuzz_param, fuzz_param_from_state, Corpus, FuzzError};
pub use value::{Value, MAX_ARRAY_LEN};
