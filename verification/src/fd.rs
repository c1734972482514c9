//! File descriptors and the open objects behind them.
//!
//! A descriptor names a slot of the table, and a slot names an object: a pipe, a
//! file, a socket, an epoll set or an event counter. Descriptors made by `dup`
//! name the same object and so share its state. An object goes away with the last
//! descriptor that names it.

use std::collections::HashMap;
use std::collections::VecDeque;
use vstd::prelude::*;
use vstd::std_specs::iter::IteratorSpec;
use crate::errno::EBADF;
use crate::errno::EMFILE;
use crate::host::IoErrorKind;
use crate::path::all_names;
use crate::path::copy_bytes;
use crate::path::GuestPath;

verus! {

broadcast use vstd::std_specs::hash::group_hash_axioms;

/// The `dirfd` that stands for the working directory.
pub const AT_FDCWD: i64 = -100;

pub const STDIN: u32 = 0;
pub const STDOUT: u32 = 1;
pub const STDERR: u32 = 2;

/// The number of descriptors that a table can hold.
pub const MAX_OPEN: u64 = 0x4000_0000;

/// The first number that is too large for a descriptor.
pub const FD_LIMIT: u32 = 0x8000_0000;

/// What a descriptor names, with the number of the object behind it.
#[derive(Clone, Copy, PartialEq, Eq, Structural, Debug)]
pub enum Resource {
    Stdin(u64),
    PipeRead(u64),
    Stdout(u64),
    Stderr(u64),
    PipeWrite(u64),
    File(u64),
    Socket(u64),
    Epoll(u64),
    EventFd(u64),
}

/// The object that a resource names.
pub open spec fn object(r: Resource) -> u64 {
    match r {
        Resource::Stdin(n) => n,
        Resource::PipeRead(n) => n,
        Resource::Stdout(n) => n,
        Resource::Stderr(n) => n,
        Resource::PipeWrite(n) => n,
        Resource::File(n) => n,
        Resource::Socket(n) => n,
        Resource::Epoll(n) => n,
        Resource::EventFd(n) => n,
    }
}

impl Resource {
    /// The object that the resource names.
    pub fn object(self) -> (r: u64)
        ensures
            r == object(self),
    {
        match self {
            Resource::Stdin(n) => n,
            Resource::PipeRead(n) => n,
            Resource::Stdout(n) => n,
            Resource::Stderr(n) => n,
            Resource::PipeWrite(n) => n,
            Resource::File(n) => n,
            Resource::Socket(n) => n,
            Resource::Epoll(n) => n,
            Resource::EventFd(n) => n,
        }
    }
}

/// One entry of the table.
#[derive(Clone, Copy, PartialEq, Eq, Structural, Debug)]
pub struct Slot {
    pub res: Resource,
    pub cloexec: bool,
}

/// A byte queue with a read end and a write end.
pub struct Pipe {
    pub buf: VecDeque<u8>,
    pub closed: bool,
    pub rd_nonblock: bool,
    pub wr_nonblock: bool,
}

pub struct PipeModel {
    pub buf: Seq<u8>,
    pub closed: bool,
    pub rd_nonblock: bool,
    pub wr_nonblock: bool,
}

impl View for Pipe {
    type V = PipeModel;

    open spec fn view(&self) -> PipeModel {
        PipeModel {
            buf: self.buf@,
            closed: self.closed,
            rd_nonblock: self.rd_nonblock,
            wr_nonblock: self.wr_nonblock,
        }
    }
}

/// The open file or directory behind a descriptor. The host keeps the file itself.
pub struct FilePos {
    pub pos: u64,
    pub path: Option<GuestPath>,
    pub is_dir: bool,
    /// The directory's records, once they have been read.
    pub dir_cache: Option<Vec<u8>>,
}

pub struct FileModel {
    pub pos: u64,
    pub path: Option<Seq<Seq<u8>>>,
    pub is_dir: bool,
    pub dir_cache: Option<Seq<u8>>,
}

impl View for FilePos {
    type V = FileModel;

    open spec fn view(&self) -> FileModel {
        FileModel {
            pos: self.pos,
            path: match self.path {
                Some(p) => Some(p@),
                None => None,
            },
            is_dir: self.is_dir,
            dir_cache: match self.dir_cache {
                Some(b) => Some(b@),
                None => None,
            },
        }
    }
}

/// Whether the path of the file, where it has one, is made of proper names.
pub open spec fn proper(p: FileModel) -> bool {
    p.path matches Some(q) ==> all_names(q)
}

/// What a snapshot keeps of an open file. The host reopens the file by its path.
pub struct FileSnapshot {
    pub path: Option<GuestPath>,
    pub pos: u64,
    pub is_dir: bool,
    pub dir_cache: Option<Vec<u8>>,
}

impl FilePos {
    /// A file just opened, by no known path.
    pub fn new() -> (r: FilePos)
        ensures
            r@ == (FileModel { pos: 0, path: None, is_dir: false, dir_cache: None }),
    {
        FilePos { pos: 0, path: None, is_dir: false, dir_cache: None }
    }

    /// A file just opened at `path`.
    pub fn with_path(path: GuestPath) -> (r: FilePos)
        ensures
            r@ == (FileModel { pos: 0, path: Some(path@), is_dir: false, dir_cache: None }),
    {
        FilePos { pos: 0, path: Some(path), is_dir: false, dir_cache: None }
    }

    /// What a snapshot keeps of the file.
    pub fn snapshot(&self) -> (r: FileSnapshot)
        ensures
            r.pos == self@.pos,
            r.is_dir == self@.is_dir,
            self@.path == (match r.path {
                Some(p) => Some(p@),
                None => None,
            }),
            self@.dir_cache == (match r.dir_cache {
                Some(b) => Some(b@),
                None => None,
            }),
    {
        let path: Option<GuestPath> = match &self.path {
            Some(p) => Some(p.copy()),
            None => None,
        };
        let dir_cache: Option<Vec<u8>> = match &self.dir_cache {
            Some(b) => Some(copy_bytes(b)),
            None => None,
        };
        FileSnapshot { path, pos: self.pos, is_dir: self.is_dir, dir_cache }
    }

    /// A second, independent position in the same file, where the host could
    /// duplicate its handle.
    pub fn try_clone(&self, handle: Result<(), IoErrorKind>) -> (r: Result<FilePos, IoErrorKind>)
        ensures
            match handle {
                Ok(_) => r matches Ok(f) && f@ == self@,
                Err(e) => r == Err::<FilePos, IoErrorKind>(e),
            },
    {
        match handle {
            Ok(_) => {
                let s: FileSnapshot = self.snapshot();
                Ok(FilePos { pos: s.pos, path: s.path, is_dir: s.is_dir, dir_cache: s.dir_cache })
            },
            Err(e) => Err(e),
        }
    }
}

#[derive(Clone, Copy, PartialEq, Eq, Structural, Debug)]
pub enum SocketKind {
    Stream,
    Datagram,
}

/// A socket address.
#[allow(inconsistent_fields)]
#[derive(PartialEq, Eq, Debug)]
pub enum SockAddr {
    V4 { port: u16, addr: [u8; 4] },
    V6 { port: u16, addr: [u8; 16] },
    Unix { path: Vec<u8> },
}

pub enum AddrModel {
    V4 { port: u16, addr: Seq<u8> },
    V6 { port: u16, addr: Seq<u8> },
    Unix { path: Seq<u8> },
}

impl View for SockAddr {
    type V = AddrModel;

    open spec fn view(&self) -> AddrModel {
        match self {
            SockAddr::V4 { port, addr } => AddrModel::V4 { port: *port, addr: addr@ },
            SockAddr::V6 { port, addr } => AddrModel::V6 { port: *port, addr: addr@ },
            SockAddr::Unix { path } => AddrModel::Unix { path: path@ },
        }
    }
}

impl SockAddr {
    /// A copy of the address.
    pub fn copy(&self) -> (r: SockAddr)
        ensures
            r@ == self@,
    {
        match self {
            SockAddr::V4 { port, addr } => SockAddr::V4 { port: *port, addr: *addr },
            SockAddr::V6 { port, addr } => SockAddr::V6 { port: *port, addr: *addr },
            SockAddr::Unix { path } => SockAddr::Unix { path: copy_bytes(path) },
        }
    }

    /// Address and port, of an IPv4 address.
    pub fn as_v4(&self) -> (r: Option<([u8; 4], u16)>)
        ensures
            match self {
                SockAddr::V4 { port, addr } => r == Some((*addr, *port)),
                _ => r is None,
            },
    {
        match self {
            SockAddr::V4 { port, addr } => Some((*addr, *port)),
            _ => None,
        }
    }
}

/// A socket. The host keeps the listener and the connection themselves.
pub struct SocketInner {
    pub kind: SocketKind,
    pub nonblock: bool,
    pub bound: Option<SockAddr>,
    pub listen_backlog: Option<i32>,
    /// Whether the host listener of an IPv4 socket is there to accept from.
    pub listener: bool,
    /// Whether the host connection of an IPv4 socket is there to use.
    pub stream: bool,
    pub family_unix: bool,
    /// Whether the host listener of a Unix socket is there to accept from.
    pub unix_listener: bool,
    /// Whether the host connection of a Unix socket is there to use.
    pub stream_unix: bool,
    pub peer_addr: Option<SockAddr>,
    /// The path that the peer of a Unix socket is bound to.
    pub peer_path: Option<Vec<u8>>,
    pub shut_rd: bool,
    pub shut_wr: bool,
    pub is_acceptor: bool,
    pub so_reuseaddr: bool,
    pub so_keepalive: bool,
    pub tcp_nodelay: bool,
    pub last_error: i32,
    /// Bytes that were looked at and are still to be received.
    pub peek_buf: VecDeque<u8>,
}

pub struct SocketModel {
    pub kind: SocketKind,
    pub nonblock: bool,
    pub bound: Option<AddrModel>,
    pub listen_backlog: Option<i32>,
    pub listener: bool,
    pub stream: bool,
    pub family_unix: bool,
    pub unix_listener: bool,
    pub stream_unix: bool,
    pub peer_addr: Option<AddrModel>,
    pub peer_path: Option<Seq<u8>>,
    pub shut_rd: bool,
    pub shut_wr: bool,
    pub is_acceptor: bool,
    pub so_reuseaddr: bool,
    pub so_keepalive: bool,
    pub tcp_nodelay: bool,
    pub last_error: i32,
    pub peek_buf: Seq<u8>,
}

pub open spec fn addr_view(a: Option<SockAddr>) -> Option<AddrModel> {
    match a {
        Some(a) => Some(a@),
        None => None,
    }
}

pub open spec fn bytes_view(b: Option<Vec<u8>>) -> Option<Seq<u8>> {
    match b {
        Some(b) => Some(b@),
        None => None,
    }
}

impl View for SocketInner {
    type V = SocketModel;

    open spec fn view(&self) -> SocketModel {
        SocketModel {
            kind: self.kind,
            nonblock: self.nonblock,
            bound: addr_view(self.bound),
            listen_backlog: self.listen_backlog,
            listener: self.listener,
            stream: self.stream,
            family_unix: self.family_unix,
            unix_listener: self.unix_listener,
            stream_unix: self.stream_unix,
            peer_addr: addr_view(self.peer_addr),
            peer_path: bytes_view(self.peer_path),
            shut_rd: self.shut_rd,
            shut_wr: self.shut_wr,
            is_acceptor: self.is_acceptor,
            so_reuseaddr: self.so_reuseaddr,
            so_keepalive: self.so_keepalive,
            tcp_nodelay: self.tcp_nodelay,
            last_error: self.last_error,
            peek_buf: self.peek_buf@,
        }
    }
}

/// A socket that nothing has been done with.
pub open spec fn fresh_socket(kind: SocketKind, nonblock: bool, unix: bool) -> SocketModel {
    SocketModel {
        kind,
        nonblock,
        bound: None,
        listen_backlog: None,
        listener: false,
        stream: false,
        family_unix: unix,
        unix_listener: false,
        stream_unix: false,
        peer_addr: None,
        peer_path: None,
        shut_rd: false,
        shut_wr: false,
        is_acceptor: false,
        so_reuseaddr: false,
        so_keepalive: false,
        tcp_nodelay: false,
        last_error: 0,
        peek_buf: Seq::empty(),
    }
}

/// Whether the socket has both an address and a backlog.
pub open spec fn listening(s: SocketModel) -> bool {
    s.bound is Some && s.listen_backlog is Some
}

impl SocketInner {
    fn fresh(kind: SocketKind, nonblock: bool, unix: bool) -> (r: SocketInner)
        ensures
            r@ == fresh_socket(kind, nonblock, unix),
    {
        SocketInner {
            kind,
            nonblock,
            bound: None,
            listen_backlog: None,
            listener: false,
            stream: false,
            family_unix: unix,
            unix_listener: false,
            stream_unix: false,
            peer_addr: None,
            peer_path: None,
            shut_rd: false,
            shut_wr: false,
            is_acceptor: false,
            so_reuseaddr: false,
            so_keepalive: false,
            tcp_nodelay: false,
            last_error: 0,
            peek_buf: VecDeque::new(),
        }
    }

    /// A fresh internet socket.
    pub fn new(kind: SocketKind, nonblock: bool) -> (r: SocketInner)
        ensures
            r@ == fresh_socket(kind, nonblock, false),
    {
        SocketInner::fresh(kind, nonblock, false)
    }

    /// A fresh Unix socket.
    pub fn new_unix(kind: SocketKind, nonblock: bool) -> (r: SocketInner)
        ensures
            r@ == fresh_socket(kind, nonblock, true),
    {
        SocketInner::fresh(kind, nonblock, true)
    }

    /// Whether the socket has been both bound and told to listen.
    pub fn is_listening(&self) -> (r: bool)
        ensures
            r == listening(self@),
    {
        self.bound.is_some() && self.listen_backlog.is_some()
    }
}

/// What wakes a wait.
#[derive(Clone, Copy, PartialEq, Eq, Structural, Debug)]
pub enum WakeSource {
    Never,
    /// The pipe got its first byte.
    Pipe(u64),
    SocketRead(u64),
    SocketWrite(u64),
    /// The event counter was written to.
    EventFd(u64),
    /// The registrations of the epoll set changed.
    Epoll(u64),
}

/// One registration in an epoll set.
#[derive(Clone, Copy, PartialEq, Eq, Structural, Debug)]
pub struct EpollEntry {
    pub fd: u32,
    pub events: u32,
    pub data: u64,
    pub wake: WakeSource,
}

/// An epoll set: its registrations, each of another descriptor, in the order in
/// which they were made.
pub struct EpollInner {
    pub entries: Vec<EpollEntry>,
}

impl View for EpollInner {
    type V = Seq<EpollEntry>;

    open spec fn view(&self) -> Seq<EpollEntry> {
        self.entries@
    }
}

/// No descriptor is registered twice.
pub open spec fn entries_distinct(s: Seq<EpollEntry>) -> bool {
    forall|i: int, j: int|
        0 <= i < j < s.len() ==> (#[trigger] s[i]).fd != (#[trigger] s[j]).fd
}

/// An event counter.
#[derive(Clone, Copy, PartialEq, Eq, Structural, Debug)]
pub struct EventFdInner {
    pub counter: u64,
    pub nonblock: bool,
}

/// The descriptors and the objects behind them.
pub struct FdTable {
    pub slots: HashMap<u32, Slot>,
    pub pipes: HashMap<u64, Pipe>,
    pub files: HashMap<u64, FilePos>,
    pub sockets: HashMap<u64, SocketInner>,
    pub epolls: HashMap<u64, EpollInner>,
    pub eventfds: HashMap<u64, EventFdInner>,
    pub next_id: u64,
}

#[verifier::ext_equal]
pub struct FdModel {
    pub slots: Map<u32, Slot>,
    pub pipes: Map<u64, PipeModel>,
    pub files: Map<u64, FileModel>,
    pub sockets: Map<u64, SocketModel>,
    pub epolls: Map<u64, Seq<EpollEntry>>,
    pub eventfds: Map<u64, EventFdInner>,
    pub next_id: u64,
}

pub open spec fn pipes_view(m: Map<u64, Pipe>) -> Map<u64, PipeModel> {
    m.map_values(|p: Pipe| p@)
}

pub open spec fn files_view(m: Map<u64, FilePos>) -> Map<u64, FileModel> {
    m.map_values(|p: FilePos| p@)
}

pub open spec fn sockets_view(m: Map<u64, SocketInner>) -> Map<u64, SocketModel> {
    m.map_values(|p: SocketInner| p@)
}

pub open spec fn epolls_view(m: Map<u64, EpollInner>) -> Map<u64, Seq<EpollEntry>> {
    m.map_values(|p: EpollInner| p@)
}

impl View for FdTable {
    type V = FdModel;

    open spec fn view(&self) -> FdModel {
        FdModel {
            slots: self.slots@,
            pipes: pipes_view(self.pipes@),
            files: files_view(self.files@),
            sockets: sockets_view(self.sockets@),
            epolls: epolls_view(self.epolls@),
            eventfds: self.eventfds@,
            next_id: self.next_id,
        }
    }
}

/// Taking a value out of a map and putting one back is putting it there.
pub broadcast proof fn put_back<K, V>(m: Map<K, V>, k: K, v: V)
    ensures
        #[trigger] m.remove(k).insert(k, v) == m.insert(k, v),
{
    assert(m.remove(k).insert(k, v) =~= m.insert(k, v));
}

/// Whether the object that `r` names is there.
pub open spec fn alive(f: FdModel, r: Resource) -> bool {
    match r {
        Resource::Stdin(n) => f.pipes.contains_key(n),
        Resource::PipeRead(n) => f.pipes.contains_key(n),
        Resource::Stdout(n) => f.pipes.contains_key(n),
        Resource::Stderr(n) => f.pipes.contains_key(n),
        Resource::PipeWrite(n) => f.pipes.contains_key(n),
        Resource::File(n) => f.files.contains_key(n),
        Resource::Socket(n) => f.sockets.contains_key(n),
        Resource::Epoll(n) => f.epolls.contains_key(n),
        Resource::EventFd(n) => f.eventfds.contains_key(n),
    }
}

impl FdModel {
    /// Every descriptor names an object that is there, and no object has a number
    /// that is still to be given out.
    pub open spec fn wf(self) -> bool {
        &&& self.slots.dom().finite()
        &&& forall|fd: u32| #[trigger] self.slots.contains_key(fd) ==> fd < FD_LIMIT
        &&& forall|fd: u32| #[trigger]
            self.slots.contains_key(fd) ==> alive(self, self.slots[fd].res)
        &&& forall|n: u64| #[trigger] self.pipes.contains_key(n) ==> n < self.next_id
        &&& forall|n: u64| #[trigger] self.files.contains_key(n) ==> n < self.next_id
        &&& forall|n: u64| #[trigger] self.sockets.contains_key(n) ==> n < self.next_id
        &&& forall|n: u64| #[trigger] self.epolls.contains_key(n) ==> n < self.next_id
        &&& forall|n: u64| #[trigger] self.eventfds.contains_key(n) ==> n < self.next_id
        &&& forall|n: u64| #[trigger]
            self.epolls.contains_key(n) ==> entries_distinct(self.epolls[n])
        &&& forall|n: u64| #[trigger] self.files.contains_key(n) ==> proper(self.files[n])
    }

    /// Whether `n` more descriptors and objects fit.
    pub open spec fn room(self, n: int) -> bool {
        self.slots.len() + n <= MAX_OPEN && self.next_id + n <= u64::MAX
    }

    /// What the descriptor passed as `a` names.
    pub open spec fn at(self, a: int) -> Option<Resource> {
        if 0 <= a <= u32::MAX && self.slots.contains_key(a as u32) {
            Some(self.slots[a as u32].res)
        } else {
            None
        }
    }

    /// `fd` now names `res`, and is kept across `exec`.
    pub open spec fn bind(self, fd: u32, res: Resource) -> FdModel {
        FdModel { slots: self.slots.insert(fd, Slot { res, cloexec: false }), ..self }
    }

    /// Whether any descriptor names the object `n`.
    pub open spec fn names(self, n: u64) -> bool {
        exists|fd: u32| self.slots.contains_key(fd) && object(#[trigger] self.slots[fd].res) == n
    }

    /// Without the object `n`.
    pub open spec fn without(self, n: u64) -> FdModel {
        FdModel {
            pipes: self.pipes.remove(n),
            files: self.files.remove(n),
            sockets: self.sockets.remove(n),
            epolls: self.epolls.remove(n),
            eventfds: self.eventfds.remove(n),
            ..self
        }
    }

    /// Without the descriptor `fd`, and without its object if no other names it.
    pub open spec fn closed(self, fd: u32) -> FdModel {
        let rest = FdModel { slots: self.slots.remove(fd), ..self };
        let n = object(self.slots[fd].res);
        if !self.slots.contains_key(fd) {
            self
        } else if rest.names(n) {
            rest
        } else {
            rest.without(n)
        }
    }
}

/// Whether `fd` is the lowest number from `min` on that names nothing.
pub open spec fn is_lowest_free(slots: Map<u32, Slot>, min: u32, fd: u32) -> bool {
    &&& min <= fd
    &&& !slots.contains_key(fd)
    &&& forall|g: u32| min <= g < fd ==> #[trigger] slots.contains_key(g)
}

/// The lowest number from `min` on that names nothing.
pub open spec fn lowest_free(slots: Map<u32, Slot>, min: u32) -> u32 {
    choose|fd: u32| is_lowest_free(slots, min, fd)
}

/// A number with the properties of the lowest free one is the lowest free one.
pub proof fn lowest_free_is(slots: Map<u32, Slot>, min: u32, fd: u32)
    requires
        is_lowest_free(slots, min, fd),
    ensures
        lowest_free(slots, min) == fd,
{
    let g = lowest_free(slots, min);
    assert(is_lowest_free(slots, min, g));
    if g < fd {
        assert(slots.contains_key(g));
    } else if fd < g {
        assert(slots.contains_key(fd));
    }
}

proof fn a_number_is_free_from(slots: Map<u32, Slot>, min: u32, cur: u32)
    requires
        forall|fd: u32| #[trigger] slots.contains_key(fd) ==> fd < u32::MAX,
        min <= cur,
        forall|g: u32| min <= g < cur ==> #[trigger] slots.contains_key(g),
    ensures
        is_lowest_free(slots, min, lowest_free(slots, min)),
    decreases u32::MAX - cur,
{
    if slots.contains_key(cur) {
        a_number_is_free_from(slots, min, (cur + 1) as u32);
    } else {
        assert(is_lowest_free(slots, min, cur));
    }
}

/// Where the highest number of all names nothing, there is a lowest one that does not.
pub proof fn a_number_is_free_among(slots: Map<u32, Slot>, min: u32)
    requires
        forall|fd: u32| #[trigger] slots.contains_key(fd) ==> fd < u32::MAX,
    ensures
        is_lowest_free(slots, min, lowest_free(slots, min)),
{
    a_number_is_free_from(slots, min, min);
}

/// There is always a number that names nothing, and so a lowest one.
pub proof fn a_number_is_free(f: FdModel, min: u32)
    requires
        f.wf(),
    ensures
        is_lowest_free(f.slots, min, lowest_free(f.slots, min)),
{
    a_number_is_free_from(f.slots, min, min);
}

/// A range of keys in a finite map is no longer than the map.
proof fn range_fits(slots: Map<u32, Slot>, min: u32, end: u32)
    requires
        slots.dom().finite(),
        min <= end,
        forall|g: u32| min <= g < end ==> #[trigger] slots.contains_key(g),
    ensures
        end - min <= slots.len(),
    decreases end - min,
{
    if min < end {
        let last = (end - 1) as u32;
        let rest = slots.remove(last);
        assert(slots.contains_key(last));
        assert forall|g: u32| min <= g < last implies #[trigger] rest.contains_key(g) by {
            assert(slots.contains_key(g));
        }
        range_fits(rest, min, last);
    }
}

/// The descriptor that the integer `a` names, if it is one.
pub fn fd_arg(a: i64) -> (r: Option<u32>)
    ensures
        r == (if 0 <= a <= u32::MAX {
            Some(a as u32)
        } else {
            None
        }),
{
    if 0 <= a && a <= 0xffff_ffff {
        Some(a as u32)
    } else {
        None
    }
}

impl FdTable {
    /// A table without descriptors.
    pub fn empty() -> (r: FdTable)
        ensures
            r@ == (FdModel {
                slots: Map::empty(),
                pipes: Map::empty(),
                files: Map::empty(),
                sockets: Map::empty(),
                epolls: Map::empty(),
                eventfds: Map::empty(),
                next_id: 0,
            }),
            r@.wf(),
            r@.room(1),
    {
        let r: FdTable = FdTable {
            slots: HashMap::new(),
            pipes: HashMap::new(),
            files: HashMap::new(),
            sockets: HashMap::new(),
            epolls: HashMap::new(),
            eventfds: HashMap::new(),
            next_id: 0,
        };
        assert(r@ =~= FdModel {
            slots: Map::empty(),
            pipes: Map::empty(),
            files: Map::empty(),
            sockets: Map::empty(),
            epolls: Map::empty(),
            eventfds: Map::empty(),
            next_id: 0,
        });
        r
    }

    /// Whether `n` more descriptors and objects fit.
    pub fn has_room(&self, n: u64) -> (r: bool)
        requires
            self@.wf(),
            n <= MAX_OPEN,
        ensures
            r == self@.room(n as int),
    {
        let used: u64 = self.slots.len() as u64;
        used <= MAX_OPEN - n && self.next_id <= u64::MAX - n
    }

    /// Whether `fd` names anything.
    pub fn contains(&self, fd: u32) -> (r: bool)
        ensures
            r == self@.slots.contains_key(fd),
    {
        self.slots.contains_key(&fd)
    }

    /// What `fd` names.
    pub fn get(&self, fd: u32) -> (r: Result<Resource, i64>)
        ensures
            r == (if self@.slots.contains_key(fd) {
                Ok(self@.slots[fd].res)
            } else {
                Err((-EBADF) as i64)
            }),
    {
        match self.slots.get(&fd) {
            Some(s) => Ok(s.res),
            None => Err(-EBADF),
        }
    }

    /// What the descriptor passed as `a` names.
    pub fn lookup(&self, a: i64) -> (r: Option<Resource>)
        ensures
            r == self@.at(a as int),
    {
        match fd_arg(a) {
            Some(fd) => match self.slots.get(&fd) {
                Some(s) => Some(s.res),
                None => None,
            },
            None => None,
        }
    }

    /// The socket that `fd` names.
    pub fn socket_at(&self, fd: u32) -> (r: Option<u64>)
        ensures
            r == (match self@.at(fd as int) {
                Some(Resource::Socket(n)) => Some(n),
                _ => None,
            }),
    {
        match self.slots.get(&fd) {
            Some(s) => match s.res {
                Resource::Socket(n) => Some(n),
                _ => None,
            },
            None => None,
        }
    }

    /// Whether any descriptor names the object `n`.
    pub fn names(&self, n: u64) -> (r: bool)
        ensures
            r == self@.names(n),
    {
        let mut found: bool = false;
        for (fd, slot) in it: self.slots.iter()
            invariant
                found == exists|i: int| 0 <= i < it.index() && object((#[trigger] it.seq()[i]).1.res) == n,
        {
            if slot.res.object() == n {
                found = true;
            }
        }
        proof {
            let v = vstd::std_specs::hash::spec_hash_map_iter(&self.slots).remaining();
            if self@.names(n) {
                let fd = choose|fd: u32|
                    self@.slots.contains_key(fd) && object(#[trigger] self@.slots[fd].res) == n;
                assert(self.slots@.contains_key(fd));
                assert(v.contains((&fd, &self.slots@[fd])));
                let i = v.index_of((&fd, &self.slots@[fd]));
                assert(object(v[i].1.res) == n);
            }
            if found {
                let i = choose|i: int| 0 <= i < v.len() && object((#[trigger] v[i]).1.res) == n;
                assert(self.slots@.contains_key(*v[i].0));
                assert(object(self@.slots[*v[i].0].res) == n);
            }
        }
        found
    }

    /// Let the lowest free descriptor from `min` on name `res`; `-EMFILE` where there
    /// is none.
    pub fn insert_at_least(&mut self, min: u32, res: Resource) -> (r: Result<u32, i64>)
        requires
            old(self)@.wf(),
        ensures
            r == (if lowest_free(old(self)@.slots, min) < FD_LIMIT {
                Ok(lowest_free(old(self)@.slots, min))
            } else {
                Err((-EMFILE) as i64)
            }),
            is_lowest_free(old(self)@.slots, min, lowest_free(old(self)@.slots, min)),
            final(self)@ == (match r {
                Ok(fd) => old(self)@.bind(fd, res),
                Err(_) => old(self)@,
            }),
            alive(old(self)@, res) ==> final(self)@.wf(),
    {
        let mut fd: u32 = min;
        while fd < FD_LIMIT && self.slots.contains_key(&fd)
            invariant
                self@ == old(self)@,
                min <= fd,
                forall|g: u32| min <= g < fd ==> #[trigger] self@.slots.contains_key(g),
            ensures
                fd >= FD_LIMIT || !self@.slots.contains_key(fd),
                min <= fd,
                self@ == old(self)@,
                forall|g: u32| min <= g < fd ==> #[trigger] self@.slots.contains_key(g),
            decreases u32::MAX - fd,
        {
            fd = fd + 1;
        }
        proof {
            lowest_free_is(self@.slots, min, fd);
        }
        if fd >= FD_LIMIT {
            return Err(-EMFILE);
        }
        self.slots.insert(fd, Slot { res, cloexec: false });
        assert(self@ =~= old(self)@.bind(fd, res));
        Ok(fd)
    }

    /// Let the lowest free descriptor above the standard ones name `res`.
    pub fn insert(&mut self, res: Resource) -> (r: u32)
        requires
            old(self)@.wf(),
            old(self)@.slots.len() < MAX_OPEN,
        ensures
            is_lowest_free(old(self)@.slots, 3, r),
            r == lowest_free(old(self)@.slots, 3),
            r < FD_LIMIT,
            final(self)@ == old(self)@.bind(r, res),
            alive(old(self)@, res) ==> final(self)@.wf(),
    {
        let r: Result<u32, i64> = self.insert_at_least(3, res);
        proof {
            let slots = old(self)@.slots;
            let fd = lowest_free(slots, 3);
            assert(is_lowest_free(slots, 3, fd));
            range_fits(slots, 3, fd);
        }
        r.unwrap()
    }

    /// Let `fd` name `res`. A descriptor that names something already, and a number
    /// too large for a descriptor, are refused with `-EBADF`.
    pub fn insert_at(&mut self, fd: u32, res: Resource) -> (r: Result<u32, i64>)
        requires
            old(self)@.wf(),
        ensures
            r == (if fd >= FD_LIMIT || old(self)@.slots.contains_key(fd) {
                Err((-EBADF) as i64)
            } else {
                Ok(fd)
            }),
            final(self)@ == (if r is Ok {
                old(self)@.bind(fd, res)
            } else {
                old(self)@
            }),
            alive(old(self)@, res) ==> final(self)@.wf(),
    {
        if fd >= FD_LIMIT || self.slots.contains_key(&fd) {
            return Err(-EBADF);
        }
        self.slots.insert(fd, Slot { res, cloexec: false });
        assert(self@ =~= old(self)@.bind(fd, res));
        Ok(fd)
    }

    /// Take `fd` out of use. The object goes too, if nothing else names it.
    pub fn close(&mut self, fd: u32) -> (r: Result<(), i64>)
        requires
            old(self)@.wf(),
        ensures
            r == (if old(self)@.slots.contains_key(fd) {
                Ok(())
            } else {
                Err((-EBADF) as i64)
            }),
            final(self)@ == old(self)@.closed(fd),
            final(self)@.wf(),
    {
        match self.slots.remove(&fd) {
            None => Err(-EBADF),
            Some(slot) => {
                let n: u64 = slot.res.object();
                let ghost rest = self@;
                assert(rest =~= FdModel { slots: old(self)@.slots.remove(fd), ..old(self)@ });
                if !self.names(n) {
                    self.pipes.remove(&n);
                    self.files.remove(&n);
                    self.sockets.remove(&n);
                    self.epolls.remove(&n);
                    self.eventfds.remove(&n);
                    assert(self@ =~= rest.without(n));
                    assert forall|g: u32| #[trigger] self@.slots.contains_key(g) implies alive(
                        self@,
                        self@.slots[g].res,
                    ) by {
                        assert(rest.slots.contains_key(g));
                        assert(alive(old(self)@, old(self)@.slots[g].res));
                        assert(object(rest.slots[g].res) != n);
                    }
                }
                Ok(())
            },
        }
    }

    /// Whether `fd` is to be closed on `exec`.
    pub fn get_cloexec(&self, fd: u32) -> (r: bool)
        ensures
            r == (self@.slots.contains_key(fd) && self@.slots[fd].cloexec),
    {
        match self.slots.get(&fd) {
            Some(s) => s.cloexec,
            None => false,
        }
    }

    /// Say whether `fd` is to be closed on `exec`.
    pub fn set_cloexec(&mut self, fd: u32, on: bool)
        ensures
            final(self)@ == old(self)@.with_cloexec(fd, on),
            old(self)@.wf() ==> final(self)@.wf(),
    {
        match self.slots.get(&fd) {
            Some(s) => {
                let res: Resource = s.res;
                self.slots.insert(fd, Slot { res, cloexec: on });
                assert(self@ =~= old(self)@.with_cloexec(fd, on));
            },
            None => {},
        }
    }
}

impl FdModel {
    /// `fd` marked to be closed on `exec`, or not.
    pub open spec fn with_cloexec(self, fd: u32, on: bool) -> FdModel {
        if self.slots.contains_key(fd) {
            FdModel {
                slots: self.slots.insert(fd, Slot { res: self.slots[fd].res, cloexec: on }),
                ..self
            }
        } else {
            self
        }
    }

    /// With one more object number given out.
    pub open spec fn numbered(self) -> FdModel {
        FdModel { next_id: (self.next_id + 1) as u64, ..self }
    }

    pub open spec fn with_pipe(self, n: u64, p: PipeModel) -> FdModel {
        FdModel { pipes: self.pipes.insert(n, p), ..self }
    }

    pub open spec fn with_file(self, n: u64, p: FileModel) -> FdModel {
        FdModel { files: self.files.insert(n, p), ..self }
    }

    pub open spec fn with_socket(self, n: u64, p: SocketModel) -> FdModel {
        FdModel { sockets: self.sockets.insert(n, p), ..self }
    }

    pub open spec fn with_epoll(self, n: u64, p: Seq<EpollEntry>) -> FdModel {
        FdModel { epolls: self.epolls.insert(n, p), ..self }
    }

    pub open spec fn with_eventfd(self, n: u64, p: EventFdInner) -> FdModel {
        FdModel { eventfds: self.eventfds.insert(n, p), ..self }
    }

    pub open spec fn without_pipe(self, n: u64) -> FdModel {
        FdModel { pipes: self.pipes.remove(n), ..self }
    }

    pub open spec fn without_file(self, n: u64) -> FdModel {
        FdModel { files: self.files.remove(n), ..self }
    }

    pub open spec fn without_socket(self, n: u64) -> FdModel {
        FdModel { sockets: self.sockets.remove(n), ..self }
    }

    pub open spec fn without_epoll(self, n: u64) -> FdModel {
        FdModel { epolls: self.epolls.remove(n), ..self }
    }
}

/// A descriptor that was closed names nothing, and every other names what it named.
pub proof fn closing_leaves_the_others(f: FdModel, fd: u32, other: u32)
    requires
        f.wf(),
        other != fd,
    ensures
        f.closed(fd).at(fd as int) is None,
        f.closed(fd).at(other as int) == f.at(other as int),
        f.at(other as int) matches Some(r) ==> alive(f.closed(fd), r),
{
    if f.slots.contains_key(fd) && f.slots.contains_key(other) {
        let rest = FdModel { slots: f.slots.remove(fd), ..f };
        let n = object(f.slots[fd].res);
        assert(alive(f, f.slots[other].res));
        if !rest.names(n) {
            assert(rest.slots.contains_key(other));
            assert(object(rest.slots[other].res) != n);
        }
    }
}

/// Changing an object keeps the table well-formed.
pub broadcast proof fn wf_with_pipe(f: FdModel, n: u64, p: PipeModel)
    requires
        f.wf(),
        f.pipes.contains_key(n),
    ensures
        #[trigger] f.with_pipe(n, p).wf(),
{
    let g = f.with_pipe(n, p);
    assert forall|fd: u32| #[trigger] g.slots.contains_key(fd) implies alive(
        g,
        g.slots[fd].res,
    ) by {
        assert(alive(f, f.slots[fd].res));
    }
}

/// Changing an object keeps the table well-formed.
pub broadcast proof fn wf_with_file(f: FdModel, n: u64, p: FileModel)
    requires
        f.wf(),
        f.files.contains_key(n),
        proper(p),
    ensures
        #[trigger] f.with_file(n, p).wf(),
{
    let g = f.with_file(n, p);
    assert forall|fd: u32| #[trigger] g.slots.contains_key(fd) implies alive(
        g,
        g.slots[fd].res,
    ) by {
        assert(alive(f, f.slots[fd].res));
    }
}

/// Changing an object keeps the table well-formed.
pub broadcast proof fn wf_with_socket(f: FdModel, n: u64, p: SocketModel)
    requires
        f.wf(),
        f.sockets.contains_key(n),
    ensures
        #[trigger] f.with_socket(n, p).wf(),
{
    let g = f.with_socket(n, p);
    assert forall|fd: u32| #[trigger] g.slots.contains_key(fd) implies alive(
        g,
        g.slots[fd].res,
    ) by {
        assert(alive(f, f.slots[fd].res));
    }
}

/// Changing an object keeps the table well-formed.
pub broadcast proof fn wf_with_epoll(f: FdModel, n: u64, p: Seq<EpollEntry>)
    requires
        f.wf(),
        f.epolls.contains_key(n),
        entries_distinct(p),
    ensures
        #[trigger] f.with_epoll(n, p).wf(),
{
    let g = f.with_epoll(n, p);
    assert forall|fd: u32| #[trigger] g.slots.contains_key(fd) implies alive(
        g,
        g.slots[fd].res,
    ) by {
        assert(alive(f, f.slots[fd].res));
    }
}

/// Changing an object keeps the table well-formed.
pub broadcast proof fn wf_with_eventfd(f: FdModel, n: u64, p: EventFdInner)
    requires
        f.wf(),
        f.eventfds.contains_key(n),
    ensures
        #[trigger] f.with_eventfd(n, p).wf(),
{
    let g = f.with_eventfd(n, p);
    assert forall|fd: u32| #[trigger] g.slots.contains_key(fd) implies alive(
        g,
        g.slots[fd].res,
    ) by {
        assert(alive(f, f.slots[fd].res));
    }
}

pub broadcast group group_fd_objects {
    put_back,
    wf_with_pipe,
    wf_with_file,
    wf_with_socket,
    wf_with_epoll,
    wf_with_eventfd,
}

/// A pipe without bytes in it.
pub open spec fn fresh_pipe(nonblock: bool) -> PipeModel {
    PipeModel { buf: Seq::empty(), closed: false, rd_nonblock: nonblock, wr_nonblock: nonblock }
}

/// Objects: reading them, and taking one out to change it and put it back.
impl FdTable {
    pub fn pipe(&self, n: u64) -> (r: &Pipe)
        requires
            self@.pipes.contains_key(n),
        ensures
            r@ == self@.pipes[n],
    {
        self.pipes.get(&n).unwrap()
    }

    pub fn file(&self, n: u64) -> (r: &FilePos)
        requires
            self@.files.contains_key(n),
        ensures
            r@ == self@.files[n],
    {
        self.files.get(&n).unwrap()
    }

    pub fn socket(&self, n: u64) -> (r: &SocketInner)
        requires
            self@.sockets.contains_key(n),
        ensures
            r@ == self@.sockets[n],
    {
        self.sockets.get(&n).unwrap()
    }

    pub fn epoll(&self, n: u64) -> (r: &EpollInner)
        requires
            self@.epolls.contains_key(n),
        ensures
            r@ == self@.epolls[n],
    {
        self.epolls.get(&n).unwrap()
    }

    pub fn event_counter(&self, n: u64) -> (r: EventFdInner)
        requires
            self@.eventfds.contains_key(n),
        ensures
            r == self@.eventfds[n],
    {
        *self.eventfds.get(&n).unwrap()
    }

    pub fn take_pipe(&mut self, n: u64) -> (r: Pipe)
        requires
            old(self)@.pipes.contains_key(n),
        ensures
            r@ == old(self)@.pipes[n],
            final(self)@ == old(self)@.without_pipe(n),
    {
        let r: Pipe = self.pipes.remove(&n).unwrap();
        assert(self@ =~= old(self)@.without_pipe(n));
        r
    }

    pub fn take_file(&mut self, n: u64) -> (r: FilePos)
        requires
            old(self)@.files.contains_key(n),
        ensures
            r@ == old(self)@.files[n],
            final(self)@ == old(self)@.without_file(n),
    {
        let r: FilePos = self.files.remove(&n).unwrap();
        assert(self@ =~= old(self)@.without_file(n));
        r
    }

    pub fn take_socket(&mut self, n: u64) -> (r: SocketInner)
        requires
            old(self)@.sockets.contains_key(n),
        ensures
            r@ == old(self)@.sockets[n],
            final(self)@ == old(self)@.without_socket(n),
    {
        let r: SocketInner = self.sockets.remove(&n).unwrap();
        assert(self@ =~= old(self)@.without_socket(n));
        r
    }

    pub fn take_epoll(&mut self, n: u64) -> (r: EpollInner)
        requires
            old(self)@.epolls.contains_key(n),
        ensures
            r@ == old(self)@.epolls[n],
            final(self)@ == old(self)@.without_epoll(n),
    {
        let r: EpollInner = self.epolls.remove(&n).unwrap();
        assert(self@ =~= old(self)@.without_epoll(n));
        r
    }

    pub fn put_pipe(&mut self, n: u64, p: Pipe)
        ensures
            final(self)@ == old(self)@.with_pipe(n, p@),
    {
        self.pipes.insert(n, p);
        assert(self@ =~= old(self)@.with_pipe(n, p@));
    }

    pub fn put_file(&mut self, n: u64, p: FilePos)
        ensures
            final(self)@ == old(self)@.with_file(n, p@),
    {
        self.files.insert(n, p);
        assert(self@ =~= old(self)@.with_file(n, p@));
    }

    pub fn put_socket(&mut self, n: u64, p: SocketInner)
        ensures
            final(self)@ == old(self)@.with_socket(n, p@),
    {
        self.sockets.insert(n, p);
        assert(self@ =~= old(self)@.with_socket(n, p@));
    }

    pub fn put_epoll(&mut self, n: u64, p: EpollInner)
        ensures
            final(self)@ == old(self)@.with_epoll(n, p@),
    {
        self.epolls.insert(n, p);
        assert(self@ =~= old(self)@.with_epoll(n, p@));
    }

    pub fn put_eventfd(&mut self, n: u64, p: EventFdInner)
        ensures
            final(self)@ == old(self)@.with_eventfd(n, p),
    {
        self.eventfds.insert(n, p);
        assert(self@ =~= old(self)@.with_eventfd(n, p));
    }

    /// Make a pipe.
    pub fn make_pipe(&mut self, nonblock: bool) -> (n: u64)
        requires
            old(self)@.next_id < u64::MAX,
        ensures
            n == old(self)@.next_id,
            final(self)@ == old(self)@.with_pipe(n, fresh_pipe(nonblock)).numbered(),
            old(self)@.wf() ==> final(self)@.wf(),
    {
        let n: u64 = self.next_id;
        let p: Pipe = Pipe {
            buf: VecDeque::new(),
            closed: false,
            rd_nonblock: nonblock,
            wr_nonblock: nonblock,
        };
        self.put_pipe(n, p);
        self.next_id = n + 1;
        assert(self@ =~= old(self)@.with_pipe(n, fresh_pipe(nonblock)).numbered());
        n
    }

    pub fn add_file(&mut self, p: FilePos) -> (n: u64)
        requires
            old(self)@.next_id < u64::MAX,
        ensures
            n == old(self)@.next_id,
            final(self)@ == old(self)@.with_file(n, p@).numbered(),
            old(self)@.wf() && proper(p@) ==> final(self)@.wf(),
    {
        let n: u64 = self.next_id;
        self.put_file(n, p);
        self.next_id = n + 1;
        assert(self@ =~= old(self)@.with_file(n, p@).numbered());
        n
    }

    pub fn add_socket(&mut self, p: SocketInner) -> (n: u64)
        requires
            old(self)@.next_id < u64::MAX,
        ensures
            n == old(self)@.next_id,
            final(self)@ == old(self)@.with_socket(n, p@).numbered(),
            old(self)@.wf() ==> final(self)@.wf(),
    {
        let n: u64 = self.next_id;
        self.put_socket(n, p);
        self.next_id = n + 1;
        assert(self@ =~= old(self)@.with_socket(n, p@).numbered());
        n
    }

    pub fn add_epoll(&mut self) -> (n: u64)
        requires
            old(self)@.next_id < u64::MAX,
        ensures
            n == old(self)@.next_id,
            final(self)@ == old(self)@.with_epoll(n, Seq::empty()).numbered(),
            old(self)@.wf() ==> final(self)@.wf(),
    {
        let n: u64 = self.next_id;
        self.put_epoll(n, EpollInner { entries: Vec::new() });
        self.next_id = n + 1;
        assert(self@ =~= old(self)@.with_epoll(n, Seq::empty()).numbered());
        n
    }

    pub fn add_eventfd(&mut self, p: EventFdInner) -> (n: u64)
        requires
            old(self)@.next_id < u64::MAX,
        ensures
            n == old(self)@.next_id,
            final(self)@ == old(self)@.with_eventfd(n, p).numbered(),
            old(self)@.wf() ==> final(self)@.wf(),
    {
        let n: u64 = self.next_id;
        self.put_eventfd(n, p);
        self.next_id = n + 1;
        assert(self@ =~= old(self)@.with_eventfd(n, p).numbered());
        n
    }
}

} // verus!
