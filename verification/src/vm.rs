//! The virtual machine: memory, registers, the instructions, the traps, and
//! the fetch and dispatch step that drives them.
pub mod instructions;
pub mod memory;
pub mod registers;
pub mod trap;
pub mod vm;
