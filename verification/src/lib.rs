//! A miniature instruction-set toolchain: a textual assembly language is
//! tokenized, parsed into structured instructions, assembled into a dense
//! byte-coded program with label resolution, and executed by a fixed-register,
//! flat-memory virtual machine.

pub mod assembler;
pub mod fmt;
pub mod laws;
pub mod vm;
