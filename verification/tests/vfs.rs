//! Paths, stat records and directory records.

use edge_libos::errno::{EACCES, EBADF, EINVAL, EIO, ENOENT, ENOSYS, ENOTDIR};
use edge_libos::fd::{FdTable, FilePos, Resource};
use edge_libos::host::{DirEntry, FileKind, FileMeta, HostTime, IoErrorKind};
use edge_libos::path::{same_bytes, split_steps, GuestPath};
use edge_libos::sys::path::{named_path, resolve, resolve_via_dirfd};
use edge_libos::vfs::{page_of, time_split, Dirent64Record, Stat, Vfs};

const AT_FDCWD_VAL: i64 = -100;

fn tree() -> Vfs {
    match Vfs::new(Ok(split_steps(b"/srv/guest"))) {
        Ok(v) => v,
        Err(e) => panic!("no tree: {e}"),
    }
}

fn text(p: &GuestPath) -> String {
    String::from_utf8(p.text()).unwrap()
}

fn resolved(v: &Vfs, path: &str) -> Result<String, i64> {
    v.resolve_path(AT_FDCWD_VAL, path.as_bytes()).map(|p| text(&p))
}

#[test]
fn vfs_resolves_relative_against_cwd() {
    let v = tree();
    let abs = match v.resolve_path(AT_FDCWD_VAL, b"hello.txt") {
        Ok(p) => p,
        Err(e) => panic!("got {e}"),
    };
    assert_eq!(abs.parts.last().unwrap(), b"hello.txt");
    assert!(abs.starts_with(&v.root));
}

#[test]
fn vfs_rejects_dotdot_escape() {
    let v = tree();
    assert!(v.resolve_path(AT_FDCWD_VAL, b"../../../etc/passwd").is_err());
}

#[test]
fn vfs_resolves_absolute_path() {
    let v = tree();
    assert_eq!(resolved(&v, "/srv/guest/a"), Ok("/srv/guest/a".to_string()));
}

#[test]
fn route_through_vfs_for_at_fdcwd_relative() {
    let vfs = tree();
    let fds = FdTable::empty();
    match resolve(&fds, &vfs, AT_FDCWD_VAL, b"foo") {
        Ok(abs) => {
            assert_eq!(abs.parts.last().unwrap(), b"foo");
            assert!(abs.starts_with(&vfs.root));
        }
        Err(e) => panic!("resolve AT_FDCWD: {e}"),
    }
}

#[test]
fn route_through_vfs_for_absolute_path() {
    let vfs = tree();
    let fds = FdTable::empty();
    match resolve(&fds, &vfs, AT_FDCWD_VAL, b"/srv/guest/abs_target") {
        Ok(abs) => assert_eq!(text(&abs), "/srv/guest/abs_target"),
        Err(e) => panic!("resolve absolute: {e}"),
    }
}

#[test]
fn dirfd_rejects_non_file_resource() {
    let mut fds = FdTable::empty();
    let pipe = fds.make_pipe(false);
    let fd = fds.insert(Resource::Stdin(pipe));
    if let Resource::File(_) = fds.get(fd).unwrap() {
        panic!("expected non-File resource");
    }
    assert!(matches!(resolve_via_dirfd(&fds, &tree(), fd, b"x"), Err(e) if e == -ENOTDIR));
}

#[test]
fn dirfd_unknown_fd_is_ebadf() {
    let fds = FdTable::empty();
    assert!(fds.get(99).is_err());
    assert!(matches!(resolve(&fds, &tree(), 99, b"x"), Err(e) if e == -EBADF));
}

#[test]
fn dirfd_with_path_resolves_relative() {
    let vfs = tree();
    let mut fds = FdTable::empty();
    let mut dir = FilePos::with_path(split_steps(b"/srv/guest/sub"));
    dir.is_dir = true;
    let file = fds.add_file(dir);
    let fd = fds.insert(Resource::File(file));
    match resolve(&fds, &vfs, fd as i64, b"child") {
        Ok(abs) => {
            assert_eq!(text(&abs), "/srv/guest/sub/child");
            assert!(abs.starts_with(&vfs.root));
        }
        Err(e) => panic!("resolve: {e}"),
    }
}

#[test]
fn non_at_fdcwd_negative_dirfd_is_enosys() {
    let vfs = tree();
    assert!(matches!(vfs.resolve_path(-50, b"foo"), Err(e) if e == -ENOSYS));
}

#[test]
fn steps_up_and_in_place_are_taken() {
    let v = tree();
    assert_eq!(resolved(&v, "a/./b/../c"), Ok("/srv/guest/a/c".to_string()));
    assert_eq!(resolved(&v, "/srv/guest//x/"), Ok("/srv/guest/x".to_string()));
    assert_eq!(resolved(&v, "/etc/passwd"), Ok("/srv/guest/etc/passwd".to_string()));
    assert_eq!(resolved(&v, "../other"), Err(-EACCES));
    assert!(same_bytes(b"ab", b"ab") && !same_bytes(b"ab", b"abc"));
}

#[test]
fn a_path_is_read_from_the_guest() {
    let v = tree();
    let fds = FdTable::empty();
    let mut mem = vec![0u8; 65536];
    mem[100..105].copy_from_slice(b"a/b\0c");
    match named_path(&fds, &v, &mem, AT_FDCWD_VAL, 100) {
        Ok(p) => assert_eq!(text(&p), "/srv/guest/a/b"),
        Err(e) => panic!("got {e}"),
    }
    mem[200..203].copy_from_slice(&[0xff, 0xfe, 0]);
    assert!(named_path(&fds, &v, &mem, AT_FDCWD_VAL, 200).is_err(), "a path is text");
}

#[test]
fn the_working_directory_moves() {
    let mut v = tree();
    assert_eq!(v.chdir(split_steps(b"/srv/guest/sub"), Ok(true)), Ok(()));
    assert_eq!(resolved(&v, "x"), Ok("/srv/guest/sub/x".to_string()));
    assert_eq!(v.chdir(split_steps(b"/srv/guest/file"), Ok(false)), Err(-ENOTDIR));
    assert_eq!(v.chdir(split_steps(b"/srv/guest/no"), Err(IoErrorKind::NotFound)), Err(-ENOENT));
    assert_eq!(text(&v.cwd), "/srv/guest/sub");
}

#[test]
fn a_told_path_leads_back() {
    let v = tree();
    for path in ["", "a", "a/b/../c", "/x/./y"] {
        let told = resolved(&v, path);
        match &told {
            Ok(t) => assert_eq!(resolved(&v, t), told),
            Err(e) => panic!("got {e}"),
        }
    }
}

#[test]
fn the_root_moves() {
    let mut v = tree();
    assert_eq!(v.chroot(split_steps(b"/srv/guest/jail"), Ok(true)), Ok(()));
    assert_eq!(text(&v.root), "/srv/guest/jail");
    assert_eq!(text(&v.cwd), "/srv/guest/jail");
    assert!(resolved(&v, "../other").is_err());
    assert_eq!(v.chroot(split_steps(b"/srv/guest/file"), Ok(false)), Err(-ENOTDIR));
}

#[test]
fn open_flags_become_options() {
    let v = tree();
    match v.open(0o2 | 0o100 | 0o200) {
        Ok(o) => {
            assert!(o.read && o.write && o.create_new);
            assert!(!o.truncate && !o.append);
        }
        Err(e) => panic!("got {e}"),
    }
    assert!(matches!(v.open(0o3), Err(e) if e == -EINVAL));
    let options = v.open(0).unwrap();
    assert_eq!(v.opened(options, Err(IoErrorKind::NotFound)), Err(-ENOENT));
    assert_eq!(v.opened(options, Err(IoErrorKind::Other)), Err(-EIO));
}

#[test]
fn stat_encodes_120_bytes() {
    let s = Stat {
        st_dev: 1,
        st_ino: 2,
        st_nlink: 1,
        st_mode: 0o100644,
        st_uid: 1000,
        st_gid: 1000,
        st_rdev: 0,
        st_size: 42,
        st_blksize: 4096,
        st_blocks: 1,
        st_atime: 100,
        st_atime_nsec: 0,
        st_mtime: 200,
        st_mtime_nsec: 0,
        st_ctime: 300,
        st_ctime_nsec: 0,
    };
    let b = s.encode();
    assert_eq!(b.len(), 120);
    let sz = i64::from_le_bytes(b[48..56].try_into().unwrap());
    assert_eq!(sz, 42);
}

#[test]
fn dirent64_packs_nul_and_pad() {
    let rec = Dirent64Record { ino: 7, off: 32, type_: 8, name: b"hello".to_vec() };
    let b = rec.encode();
    let reclen = u16::from_le_bytes(b[16..18].try_into().unwrap()) as usize;
    assert_eq!(b.len(), reclen);
    assert_eq!(reclen, 27);
    assert_eq!(&b[19..24], b"hello");
    assert_eq!(b[24], 0);
    assert_eq!(b[25], 0);
    assert_eq!(b[26], 0);
}

fn entry(name: &[u8], kind: FileKind, ino: u64) -> DirEntry {
    DirEntry { name: name.to_vec(), kind: Some(kind), ino }
}

#[test]
fn a_listing_holds_every_entry() {
    let v = tree();
    let all = match v.readdir_all(Ok(vec![entry(b"a", FileKind::File, 3), entry(b"sub", FileKind::Dir, 4)])) {
        Ok(b) => b,
        Err(e) => panic!("got {e}"),
    };
    let mut names: Vec<Vec<u8>> = Vec::new();
    let mut at = 0;
    while at < all.len() {
        let len = u16::from_le_bytes(all[at + 16..at + 18].try_into().unwrap()) as usize;
        let name: Vec<u8> = all[at + 19..at + len].iter().copied().take_while(|b| *b != 0).collect();
        names.push(name);
        at += len;
    }
    assert_eq!(at, all.len());
    assert!(names.contains(&b"a".to_vec()) && names.contains(&b"sub".to_vec()));
    assert!(matches!(v.readdir_all(Err(IoErrorKind::NotFound)), Err(e) if e == -ENOENT));
}

#[test]
fn a_listing_is_read_page_by_page() {
    let v = tree();
    let all = v.readdir_all(Ok(vec![entry(b"a", FileKind::File, 3), entry(b"bb", FileKind::File, 4)])).unwrap();
    assert_eq!(page_of(&all, 0, 30), all[0..30].to_vec());
    assert_eq!(page_of(&all, 30, 65536), all[30..].to_vec());
    let found = vec![entry(b"a", FileKind::File, 3), entry(b"bb", FileKind::File, 4)];
    assert_eq!(v.getdents_at(Ok(found), 30, 8), Ok((all[30..38].to_vec(), all.len())));
    assert_eq!(page_of(&all, 0, 65536), all);
    assert_eq!(page_of(&all, all.len(), 65536), Vec::<u8>::new());
}

#[test]
fn metadata_fills_a_stat() {
    let meta = FileMeta {
        kind: FileKind::File,
        perm: 0o640,
        readonly: false,
        ino: 12,
        nlink: 2,
        len: 1025,
        accessed: Some(HostTime { before_epoch: false, secs: 5, nanos: 6 }),
        modified: Some(HostTime { before_epoch: false, secs: 7, nanos: 8 }),
        created: None,
    };
    let s = tree().stat(Ok(meta)).unwrap();
    assert_eq!(s.st_size, 1025);
    assert_eq!(s.st_ino, 12);
    assert_eq!(s.st_nlink, 2);
    assert_eq!(s.st_mode, 0o100640);
    assert_eq!((s.st_mtime, s.st_mtime_nsec), (7, 8));
    assert_eq!(s.st_blocks, 3);
    assert_eq!(time_split(HostTime { before_epoch: false, secs: 9, nanos: 1 }), (9, 1));
    assert_eq!(tree().stat(Err(IoErrorKind::PermissionDenied)), Err(-EACCES));
}
