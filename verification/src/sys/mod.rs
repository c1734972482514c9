//! The system calls.

pub mod epoll;
pub mod eventfd;
pub mod file;
pub mod fs;
pub mod futex;
pub mod identity;
pub mod ioctl;
pub mod memory;
pub mod path;
pub mod poll;
pub mod process;
pub mod random;
pub mod resolver;
pub mod signal;
pub mod socket;
pub mod time;
pub mod udp;
