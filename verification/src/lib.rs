//! Checkpoint and restore of long-running compute processes on 64-bit x86
//! Linux: the rules of the checkpoint engine, of the adaptive scheduler
//! and of the restore bootstrapper, with their contracts.
//!
//! The library decides and computes; it touches neither processes nor
//! files. The program around it stops the target, reads what the library
//! asks for, and carries out what the library plans.
//!
//! - [`region`], [`compat`], [`fdinfo`]: what a target holds, as plain values.
//! - [`capture`], [`checkpoint`], [`retention`]: what a checkpoint stores,
//!   links and writes, and which checkpoints stay on disk.
//! - [`schedule`]: when the next checkpoint is due.
//! - [`layout`], [`program`], [`machine`], [`elf`], [`restore`]: the
//!   bootstrapper that rebuilds a target, and what its code does.
//! - [`assembler`], [`ptrace`]: the assembler and the tracer, as far as the
//!   library relies on them.
//! - [`bytes`], [`decimal`], [`error`]: paths, numbers in text, failures.

pub mod assembler;
pub mod bytes;
pub mod capture;
pub mod checkpoint;
pub mod compat;
pub mod decimal;
pub mod elf;
pub mod error;
pub mod fdinfo;
pub mod layout;
pub mod machine;
pub mod program;
pub mod ptrace;
pub mod region;
pub mod restore;
pub mod retention;
pub mod schedule;
