//! Password generation from injected random draws, password strength
//! scoring, and small text conversions, with machine-checked contracts.

pub mod base64_text;
pub mod builder;
pub mod chars;
pub mod classes;
pub mod generate;
pub mod radix;
pub mod sampler;
pub mod stats;
pub mod strength;
pub mod text;
