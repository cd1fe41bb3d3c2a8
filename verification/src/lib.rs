//! Crash-consistency support for a microcontroller with external
//! ferroelectric RAM (FRAM): the undo log that atomic regions append to,
//! the checkpoint frame that saves the stack and the registers, the flash
//! page bookkeeping, and the write-after-read analysis that decides which
//! variables an atomic region must log before it overwrites them.
//!
//! Everything here computes on plain values: the program around it reads
//! the hardware, hands the values in, and performs the memory writes and
//! register updates that these functions return.

pub mod txlog;
pub mod frame;
pub mod flash;
pub mod instrument;
