//! The runtime core of an interpreter for a small tape language: values
//! that are integers, characters or text, tapes of cells that hold them,
//! and the instructions that run on a tape.

pub mod assembler;
pub mod call;
pub mod cells;
pub mod digits;
pub mod machine;
pub mod modules;
pub mod random;
pub mod tape;
pub mod value;
