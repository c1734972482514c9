//! What the host reports about its files, as plain values.

use vstd::prelude::*;

verus! {

/// Why a host file operation failed.
#[derive(Clone, Copy, PartialEq, Eq, Structural, Debug)]
pub enum IoErrorKind {
    NotFound,
    PermissionDenied,
    AlreadyExists,
    InvalidInput,
    NotADirectory,
    IsADirectory,
    DirectoryNotEmpty,
    TooManyLinks,
    Other,
}

/// What a directory entry is.
#[derive(Clone, Copy, PartialEq, Eq, Structural, Debug)]
pub enum FileKind {
    Dir,
    File,
    Symlink,
    CharDevice,
    BlockDevice,
    Fifo,
    Socket,
    Other,
}

/// A moment on the host's clock: its distance from the Unix epoch and on which
/// side of the epoch it lies.
#[derive(Clone, Copy, PartialEq, Eq, Structural, Debug)]
pub struct HostTime {
    pub before_epoch: bool,
    pub secs: u64,
    pub nanos: u32,
}

/// The Unix epoch itself.
pub open spec fn epoch() -> HostTime {
    HostTime { before_epoch: false, secs: 0, nanos: 0 }
}

impl HostTime {
    /// The Unix epoch itself.
    pub fn epoch() -> (r: HostTime)
        ensures
            r == epoch(),
    {
        HostTime { before_epoch: false, secs: 0, nanos: 0 }
    }
}

/// The attributes of a host file. A timestamp that the host does not keep is
/// `None`.
#[derive(Clone, Copy, PartialEq, Eq, Structural, Debug)]
pub struct FileMeta {
    pub kind: FileKind,
    pub perm: u32,
    pub readonly: bool,
    pub ino: u64,
    pub nlink: u64,
    pub len: u64,
    pub accessed: Option<HostTime>,
    pub modified: Option<HostTime>,
    pub created: Option<HostTime>,
}

/// One entry of a host directory. The kind is `None` where the host could not
/// tell it, and the inode number is zero where it could not tell that.
pub struct DirEntry {
    pub name: Vec<u8>,
    pub kind: Option<FileKind>,
    pub ino: u64,
}

} // verus!
