//! What the system calls promise: how each answer, each change of the state and each
//! byte that a call writes follows from what it was given.

pub mod address;
pub mod datagram;
pub mod directory;
pub mod epoll;
pub mod file;
pub mod futex;
pub mod memory;
pub mod message;
pub mod older;
pub mod opening;
pub mod path;
pub mod poll;
pub mod process;
pub mod refusal;
pub mod resolver;
pub mod signal;
pub mod socket;
pub mod system;
pub mod time;
