//! File-I/O system calls of a small teaching kernel: descriptor tables,
//! user-pointer translation and hard-link aware link/unlink, all verified.

pub mod mm;
pub mod buffer;
pub mod fs;
pub mod file;
pub mod task;
pub mod syscall;
pub mod laws;
