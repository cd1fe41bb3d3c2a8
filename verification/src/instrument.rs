//! The write-after-read analysis behind the `#[my_proc_macro]` attribute.
//!
//! Inside an atomic region (the statements between a call of
//! `start_atomic()` and a call of `end_atomic()`), a variable that is read
//! and later overwritten must be logged before the write, so that the
//! region can be undone after a power failure. The analysis walks the
//! body of a function and returns it with `save_variables(..)` calls
//! inserted where such a write occurs.
//!
//! The syntax tree is a small model of the Rust syntax tree that holds
//! exactly what the analysis reads; identifiers and rendered index
//! expressions are kept as character sequences.

pub mod ast;
pub mod spec;
pub mod places;
pub mod analysis;
pub mod laws;
pub mod syntax;
