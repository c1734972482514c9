//! A Linux system-call layer for sandboxed guests.

pub mod bytes;
pub mod errno;
pub mod fd;
pub mod host;
pub mod ip;
pub mod kernel;
pub mod laws;
pub mod mem;
pub mod mm;
pub mod path;
pub mod sys;
pub mod vfs;
