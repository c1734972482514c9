# edge_libos

The system calls of a small Linux personality for WebAssembly guests: descriptors,
pipes, files, sockets, polling, signals, futexes, processes, memory, clocks and name
resolution, in the layouts of a 32-bit C library.

`src/` is the library. Each call is a function from the kernel's state, the guest's
memory and six arguments to a result and the state after it, and its contract says
what both are, for every argument. Contracts speak of models: a map of descriptors, a
sequence of bytes, a sequence of path names.

A call that needs the host stops half-way. It returns a step, which says what the
host is to do, and a second function takes the host's reply and finishes the call.

| Module | What it holds |
| --- | --- |
| `bytes`, `mem` | little-endian numbers; reads and writes of guest memory, all inside its bounds |
| `path`, `vfs`, `sys::path`, `sys::fs` | paths, which never lead out of the root; attributes and directory listings; calls on paths |
| `fd` | the descriptor table and what descriptors name |
| `sys::file`, `sys::eventfd`, `sys::ioctl` | reading, writing, seeking, duplicating; pipes and counters |
| `sys::socket`, `sys::udp`, `sys::resolver`, `ip` | sockets, datagrams, names and addresses |
| `sys::poll`, `sys::epoll` | what is ready, and what to wait for |
| `sys::process`, `sys::signal`, `sys::futex` | children, signals, waiters |
| `mm`, `sys::memory` | the arena of mappings |
| `sys::time`, `sys::random`, `sys::identity` | clocks, random bytes, who the guest is |
| `kernel` | the state of one guest, put together |

Public proof functions state what holds across calls: what a pipe gives back, that no
path escapes the root, that mappings do not overlap, that a signal which is blocked
waits, and so on.

`app/` performs the steps: host files, sockets and timers, and the link to the
WebAssembly engine.
