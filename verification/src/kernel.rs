//! All the state of one guest.

use vstd::prelude::*;
use crate::fd::fresh_pipe;
use crate::fd::FdModel;
use crate::fd::FdTable;
use crate::fd::Resource;
use crate::fd::Slot;
use crate::fd::STDERR;
use crate::fd::STDIN;
use crate::fd::STDOUT;
use crate::mm::LinearAllocator;
use crate::mm::MmModel;
use crate::sys::futex::FutexModel;
use crate::sys::futex::FutexTable;
use crate::sys::process::fresh_process;
use crate::sys::process::ProcessState;
use crate::sys::resolver::fresh_resolver;
use crate::sys::resolver::ResolverState;
use crate::sys::signal::SignalModel;
use crate::sys::signal::SignalState;
use crate::vfs::Vfs;

verus! {

/// The state of a guest. The host keeps its files, its sockets and its clock.
pub struct Kernel {
    /// The words of the guest's command line.
    pub args: Vec<String>,
    /// The guest's environment.
    pub env: Vec<(String, String)>,
    pub fds: FdTable,
    pub vfs: Vfs,
    pub signals: SignalState,
    pub process_state: ProcessState,
    pub futex_table: FutexTable,
    pub resolver: ResolverState,
    pub mm: LinearAllocator,
}

/// A table with nothing in it.
pub open spec fn no_descriptors() -> FdModel {
    FdModel {
        slots: Map::empty(),
        pipes: Map::empty(),
        files: Map::empty(),
        sockets: Map::empty(),
        epolls: Map::empty(),
        eventfds: Map::empty(),
        next_id: 0,
    }
}

/// A table in which the descriptors 0, 1 and 2 name the standard streams, each a pipe of
/// its own.
pub open spec fn standard_descriptors() -> FdModel {
    FdModel {
        slots: Map::<u32, Slot>::empty().insert(
            0,
            Slot { res: Resource::Stdin(0), cloexec: false },
        ).insert(1, Slot { res: Resource::Stdout(1), cloexec: false }).insert(
            2,
            Slot { res: Resource::Stderr(2), cloexec: false },
        ),
        pipes: Map::empty().insert(0u64, fresh_pipe(false)).insert(1u64, fresh_pipe(false)).insert(
            2u64,
            fresh_pipe(false),
        ),
        files: Map::empty(),
        sockets: Map::empty(),
        epolls: Map::empty(),
        eventfds: Map::empty(),
        next_id: 3,
    }
}

impl Kernel {
    /// Every part is well-formed.
    pub open spec fn wf(self) -> bool {
        &&& self.fds@.wf()
        &&& self.vfs.wf()
        &&& self.signals@.wf()
        &&& self.process_state@.wf()
        &&& self.futex_table@.wf()
        &&& self.resolver@.wf()
        &&& self.mm@.wf()
    }

    /// Every part but the descriptors is as it starts.
    pub open spec fn fresh(self) -> bool {
        &&& self.signals@ == (SignalModel { actions: Map::empty(), mask: 0, alt_stack: None })
        &&& self.process_state@ == fresh_process()
        &&& self.futex_table@ == (FutexModel { by_addr: Map::empty(), next_notify: 0 })
        &&& self.resolver@ == fresh_resolver()
        &&& self.mm@ == (MmModel { used: Seq::empty(), high: 0 })
    }

    /// A guest with this command line and environment and no descriptors, in this file system.
    pub fn new_without_stdio(args: Vec<String>, env: Vec<(String, String)>, vfs: Vfs) -> (r: Kernel)
        ensures
            vfs.wf() ==> r.wf(),
            r.fresh(),
            r.fds@ == no_descriptors(),
            r.vfs == vfs,
            r.args == args,
            r.env == env,
    {
        let r: Kernel = Kernel {
            args,
            env,
            fds: FdTable::empty(),
            vfs,
            signals: SignalState::new(),
            process_state: ProcessState::new(),
            futex_table: FutexTable::default(),
            resolver: ResolverState::default(),
            mm: LinearAllocator::new(),
        };
        r
    }

    /// A guest with this command line and environment and the standard streams, in this file
    /// system.
    pub fn new(args: Vec<String>, env: Vec<(String, String)>, vfs: Vfs) -> (r: Kernel)
        ensures
            vfs.wf() ==> r.wf(),
            r.fresh(),
            r.fds@ == standard_descriptors(),
            r.vfs == vfs,
            r.args == args,
            r.env == env,
    {
        let mut r: Kernel = Kernel::new_without_stdio(args, env, vfs);
        let input: u64 = r.fds.make_pipe(false);
        let output: u64 = r.fds.make_pipe(false);
        let errors: u64 = r.fds.make_pipe(false);
        let _ = r.fds.insert_at(STDIN, Resource::Stdin(input));
        let _ = r.fds.insert_at(STDOUT, Resource::Stdout(output));
        let _ = r.fds.insert_at(STDERR, Resource::Stderr(errors));
        assert(r.fds@ =~= standard_descriptors());
        r
    }
}

} // verus!
