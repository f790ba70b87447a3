//! A small RISC-V-like virtual machine: a two-pass assembler that resolves
//! labels and data directives into a flat instruction stream, and an
//! interpreter that executes the stream against a segmented virtual memory
//! and a named register bank.

pub mod compile;
pub mod error;
pub mod evaluator;
pub mod instruction;
pub mod memory;
pub mod registers;
pub mod text;
