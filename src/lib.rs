//! An interpreter for a minimal tape-based language of eight one-character
//! instructions, with verified decoding and a verified single-step engine.

pub mod instruction;
pub mod machine;
pub mod engine;
pub mod laws;
