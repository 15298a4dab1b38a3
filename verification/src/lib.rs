//! Diagnostic remapping layer for an interactive Rust evaluator.
//!
//! The evaluator wraps each user snippet in a synthetic compilation unit,
//! invokes the compiler, and receives structured diagnostics whose
//! coordinates refer to the synthetic file.  This crate translates those
//! diagnostics back into coordinates meaningful in the user's original
//! input, discarding or de-emphasising messages whose spans fall entirely
//! inside generated code.

pub mod text;

pub mod code_block;

pub mod diagnostics;

pub mod origins;

pub mod span;

pub mod errors;
