//! Descriptors, pipes and open files.

use edge_libos::errno::{EACCES, EAGAIN, EBADF, EEXIST, EFAULT, EINVAL, EISDIR, ENAMETOOLONG, ENOENT, ENOTDIR, ERANGE, ESPIPE};
use edge_libos::fd::{FdTable, FilePos, Resource};
use edge_libos::host::{FileKind, FileMeta, IoErrorKind};
use edge_libos::path::{split_steps, GuestPath};
use edge_libos::sys::file::{
    clamp_nsec, close, dup, dup2, dup3, fcntl, file_chunk, fstat, fstat_done, getcwd, getdents64, getdents64_listed, io_to_errno, lseek,
    lseek_done, lseek_end, parse_iovecs, pipe, pipe2, read, read_file_done, readv, write_file_done,
    writev, DirStep, FstatStep, LseekStep, ReadStep, Statx, WriteStep, F_DUPFD, F_GETFD, F_GETFL, F_SETFD,
    F_SETFL, STATX_BLOCKS, STATX_BTIME, STATX_INO, STATX_MODE, STATX_TYPE,
};
use edge_libos::sys::fs::{
    chdir, faccessat, faccessat_done, fs_reply, ftruncate, link, linkat, mkdir, mkdirat, newfstatat, newfstatat_done, openat, openat_done,
    readlinkat, readlinkat_done, rename_allowed, renameat2, symlink, timespec_from_bytes, truncate, unlinkat,
    utimensat, StatStep,
};
use edge_libos::vfs::Vfs;

const AT_FDCWD: i64 = -100;

fn page() -> Vec<u8> {
    vec![0u8; 65536]
}

fn word(mem: &[u8], at: usize) -> i64 {
    i32::from_le_bytes(mem[at..at + 4].try_into().unwrap()) as i64
}

fn new_pipe(fds: &mut FdTable, mem: &mut [u8], flags: i64) -> (i64, i64) {
    assert_eq!(pipe2(fds, mem, [4096, flags, 0, 0, 0, 0]), 0, "pipe2 should return 0");
    (word(mem, 4096), word(mem, 4100))
}

fn wrote(fds: &mut FdTable, mem: &[u8], fd: i64, ptr: i64, len: i64) -> i64 {
    match edge_libos::sys::file::write(fds, mem, [fd, ptr, len, 0, 0, 0]) {
        WriteStep::Done { ret, .. } => ret,
        _ => panic!("nothing is left to the host"),
    }
}

fn got(fds: &mut FdTable, mem: &mut [u8], fd: i64, ptr: i64, len: i64) -> i64 {
    match read(fds, mem, [fd, ptr, len, 0, 0, 0]) {
        ReadStep::Done(r) => r,
        other => panic!("{other:?}"),
    }
}

fn flags(fds: &mut FdTable, fd: i64) -> i64 {
    fcntl(fds, &mut page(), [fd, F_GETFL as i64, 0, 0, 0, 0])
}

#[test]
fn offsets_match_linux_stat_h() {
    let s = Statx {
        stx_mask: 0xdead_beef,
        stx_blksize: 0x1111_2222,
        stx_attributes: 0x3333_4444_5555_6666,
        stx_nlink: 7,
        stx_uid: 1000,
        stx_gid: 1000,
        stx_mode: 0o100644,
        stx_ino: 0xabcd_1234_5678_9abc,
        stx_size: 0x0102_0304_0506_0708,
        stx_blocks: 0x090a_0b0c,
        stx_attributes_mask: 0xdead_beef_dead_beef,
        stx_atime_sec: 1_700_000_000,
        stx_atime_nsec: 123_456_789,
        stx_btime_sec: 0,
        stx_btime_nsec: 0,
        stx_ctime_sec: 1_700_000_001,
        stx_ctime_nsec: 234_567_890,
        stx_mtime_sec: 1_700_000_002,
        stx_mtime_nsec: 345_678_901,
        stx_rdev_major: 0,
        stx_rdev_minor: 0,
        stx_dev_major: 0,
        stx_dev_minor: 0,
        stx_mnt_id: 0,
        stx_dio_mem_align: 0,
        stx_dio_offset_align: 0,
    };
    let buf = s.encode();

    assert_eq!(buf.len(), 256);
    assert_eq!(&buf[0..4], &s.stx_mask.to_le_bytes());
    assert_eq!(&buf[4..8], &s.stx_blksize.to_le_bytes());
    assert_eq!(&buf[8..16], &s.stx_attributes.to_le_bytes());
    assert_eq!(&buf[16..24], &s.stx_nlink.to_le_bytes());
    assert_eq!(&buf[24..28], &s.stx_uid.to_le_bytes());
    assert_eq!(&buf[28..32], &s.stx_gid.to_le_bytes());
    assert_eq!(&buf[32..34], &s.stx_mode.to_le_bytes());
    assert!(buf[34..40].iter().all(|b| *b == 0));
    assert_eq!(&buf[40..48], &s.stx_ino.to_le_bytes());
    assert_eq!(&buf[48..56], &s.stx_size.to_le_bytes());
    assert_eq!(&buf[56..64], &s.stx_blocks.to_le_bytes());
    assert_eq!(&buf[64..72], &s.stx_attributes_mask.to_le_bytes());
    assert_eq!(&buf[72..80], &s.stx_atime_sec.to_le_bytes());
    assert_eq!(&buf[80..88], &s.stx_atime_nsec.to_le_bytes());
    assert!(buf[88..104].iter().all(|b| *b == 0));
    assert_eq!(&buf[104..112], &s.stx_ctime_sec.to_le_bytes());
    assert_eq!(&buf[112..120], &s.stx_ctime_nsec.to_le_bytes());
    assert_eq!(&buf[120..128], &s.stx_mtime_sec.to_le_bytes());
    assert_eq!(&buf[128..136], &s.stx_mtime_nsec.to_le_bytes());
    assert_eq!(&buf[136..140], &s.stx_rdev_major.to_le_bytes());
    assert_eq!(&buf[140..144], &s.stx_rdev_minor.to_le_bytes());
    assert_eq!(&buf[144..152], &s.stx_dev_major.to_le_bytes());
    assert_eq!(&buf[152..160], &s.stx_dev_minor.to_le_bytes());
    assert_eq!(&buf[160..168], &s.stx_mnt_id.to_le_bytes());
    assert_eq!(&buf[168..172], &s.stx_dio_mem_align.to_le_bytes());
    assert_eq!(&buf[172..176], &s.stx_dio_offset_align.to_le_bytes());
    assert!(buf[176..256].iter().all(|b| *b == 0));
}

#[test]
fn clamp_nsec_helper() {
    assert_eq!(clamp_nsec(-5), 0);
    assert_eq!(clamp_nsec(0), 0);
    assert_eq!(clamp_nsec(500_000_000), 500_000_000);
    assert_eq!(clamp_nsec(1_000_000_000), 999_999_999);
}

#[test]
fn filled_mask_excludes_btime() {
    let m = Statx::filled_mask();
    assert_eq!(m & STATX_BTIME, 0, "BTIME must be excluded from filled_mask");
    assert_ne!(m & STATX_TYPE, 0);
    assert_ne!(m & STATX_MODE, 0);
    assert_ne!(m & STATX_INO, 0);
    assert_ne!(m & STATX_BLOCKS, 0);
}

#[test]
fn pipe2_o_nonblock_sets_flag_on_pair() {
    let mut fds = FdTable::empty();
    let mut mem = page();
    let (rd, _wr) = new_pipe(&mut fds, &mut mem, 0o4000);
    assert_eq!(
        flags(&mut fds, rd),
        0o4000,
        "F_GETFL on nonblocking pipe read end should report O_NONBLOCK"
    );
}

#[test]
fn fcntl_setfl_zero_clears_o_nonblock() {
    let mut fds = FdTable::empty();
    let mut mem = page();
    let (rd, _wr) = new_pipe(&mut fds, &mut mem, 0);
    let initial = flags(&mut fds, rd);
    assert_eq!(initial & 0o4000, 0, "blocking pipe should not report O_NONBLOCK initially");
    let set_rc = fcntl(&mut fds, &mut mem, [rd, F_SETFL as i64, 0o4000, 0, 0, 0]);
    assert_eq!(set_rc, 0, "F_SETFL=O_NONBLOCK should return 0");
    let after_set = flags(&mut fds, rd);
    assert_eq!(after_set & 0o4000, 0o4000, "O_NONBLOCK should be set after F_SETFL=0o4000");
    let clear_rc = fcntl(&mut fds, &mut mem, [rd, F_SETFL as i64, 0, 0, 0, 0]);
    assert_eq!(clear_rc, 0, "F_SETFL=0 should return 0");
    let after_clear = flags(&mut fds, rd);
    assert_eq!(after_clear & 0o4000, 0, "O_NONBLOCK should be cleared after F_SETFL=0");
}

#[test]
fn pipe2_records_cloexec_of_both_ends() {
    let mut fds = FdTable::empty();
    let mut mem = page();
    let (rd, wr) = new_pipe(&mut fds, &mut mem, 0o2000000);
    assert!(fds.get_cloexec(rd as u32) && fds.get_cloexec(wr as u32));
    assert_eq!(fcntl(&mut fds, &mut page(), [rd, F_GETFD as i64, 0, 0, 0, 0]), 1);
    let (rd, wr) = new_pipe(&mut fds, &mut mem, 0);
    assert!(!fds.get_cloexec(rd as u32) && !fds.get_cloexec(wr as u32));
}

#[test]
fn a_pipe_is_a_queue() {
    let mut fds = FdTable::empty();
    let mut mem = page();
    let (rd, wr) = new_pipe(&mut fds, &mut mem, 0);
    mem[100..106].copy_from_slice(b"abcdef");
    assert_eq!(wrote(&mut fds, &mem, wr, 100, 4), 4);
    assert_eq!(wrote(&mut fds, &mem, wr, 104, 2), 2);
    assert_eq!(got(&mut fds, &mut mem, rd, 200, 3), 3);
    assert_eq!(got(&mut fds, &mut mem, rd, 203, 100), 3);
    assert_eq!(&mem[200..206], b"abcdef");
    assert_eq!(got(&mut fds, &mut mem, rd, 200, 1), -EAGAIN);
    assert_eq!(got(&mut fds, &mut mem, rd, 65530, 100), -EFAULT);
}

#[test]
fn a_closed_descriptor_is_free_again() {
    let mut fds = FdTable::empty();
    let mut mem = page();
    assert_eq!(pipe(&mut fds, &mut mem, [4096, 0, 0, 0, 0, 0]), 0);
    let (rd, wr) = (word(&mem, 4096), word(&mem, 4100));
    assert_eq!((rd, wr), (3, 4));
    assert_eq!(close(&mut fds, [rd, 0, 0, 0, 0, 0]), 0);
    assert_eq!(close(&mut fds, [rd, 0, 0, 0, 0, 0]), -EBADF);
    assert_eq!(got(&mut fds, &mut mem, rd, 0, 1), -EBADF);
    assert!(fds.contains(wr as u32));
    assert_eq!(fds.insert(Resource::PipeRead(0)), 3);
}

#[test]
fn duplicates_share_the_pipe() {
    let mut fds = FdTable::empty();
    let mut mem = page();
    let (rd, wr) = new_pipe(&mut fds, &mut mem, 0);
    let copy = dup(&mut fds, [rd, 0, 0, 0, 0, 0]);
    assert_eq!(copy, 5);
    mem[100] = 7;
    assert_eq!(wrote(&mut fds, &mem, wr, 100, 1), 1);
    assert_eq!(got(&mut fds, &mut mem, copy, 300, 1), 1);
    assert_eq!(mem[300], 7);
    assert_eq!(dup2(&mut fds, [rd, rd, 0, 0, 0, 0]), rd);
    assert_eq!(dup2(&mut fds, [rd, 40, 0, 0, 0, 0]), 40);
    assert_eq!(dup3(&mut fds, [rd, rd, 0, 0, 0, 0]), -EINVAL);
    assert_eq!(dup(&mut fds, [77, 0, 0, 0, 0, 0]), -EBADF);
}

#[test]
fn dup_takes_the_lowest_free_descriptor() {
    let mut fds = FdTable::empty();
    let mut mem = page();
    let (rd, wr) = new_pipe(&mut fds, &mut mem, 0);
    assert_eq!((rd, wr), (3, 4));
    assert_eq!(dup2(&mut fds, [wr, 9, 0, 0, 0, 0]), 9);
    assert_eq!(dup(&mut fds, [9, 0, 0, 0, 0, 0]), 5);
    assert_eq!(close(&mut fds, [rd, 0, 0, 0, 0, 0]), 0);
    assert_eq!(dup(&mut fds, [9, 0, 0, 0, 0, 0]), 3);
    assert_eq!(fcntl(&mut fds, &mut mem, [3, F_DUPFD as i64, 8, 0, 0, 0]), 8);
}

#[test]
fn close_on_exec_is_told_as_it_was_set() {
    let mut fds = FdTable::empty();
    let mut mem = page();
    let (rd, _) = new_pipe(&mut fds, &mut mem, 0);
    assert_eq!(fcntl(&mut fds, &mut mem, [rd, F_SETFD as i64, 1, 0, 0, 0]), 0);
    assert_eq!(fcntl(&mut fds, &mut mem, [rd, F_GETFD as i64, 0, 0, 0, 0]), 1);
    assert_eq!(fcntl(&mut fds, &mut mem, [rd, F_SETFD as i64, 0, 0, 0, 0]), 0);
    assert_eq!(fcntl(&mut fds, &mut mem, [rd, F_GETFD as i64, 0, 0, 0, 0]), 0);
    assert_eq!(fcntl(&mut fds, &mut mem, [rd, F_DUPFD as i64, 20, 0, 0, 0]), 20);
    assert_eq!(fcntl(&mut fds, &mut mem, [rd, 9999, 0, 0, 0, 0]), -EINVAL);
}

fn with_file(fds: &mut FdTable, path: &[u8], is_dir: bool) -> (i64, u64) {
    let mut f = FilePos::with_path(split_steps(path));
    f.is_dir = is_dir;
    let file = fds.add_file(f);
    (fds.insert(Resource::File(file)) as i64, file)
}

#[test]
fn a_file_is_read_in_chunks() {
    let mut fds = FdTable::empty();
    let mut mem = page();
    let (fd, file) = with_file(&mut fds, b"/g/f", false);
    assert_eq!(
        read(&mut fds, &mut mem, [fd, 100, 5, 0, 0, 0]),
        ReadStep::File { file, pos: 0, len: 5 }
    );
    let mut bytes: Vec<u8> = Vec::new();
    assert!(!file_chunk(&mut bytes, 5, b"abc"));
    assert!(file_chunk(&mut bytes, 5, b"de"));
    assert_eq!(read_file_done(&mut fds, &mut mem, file, 100, Some(bytes)), 5);
    assert_eq!(&mem[100..105], b"abcde");
    assert_eq!(
        read(&mut fds, &mut mem, [fd, 100, 5, 0, 0, 0]),
        ReadStep::File { file, pos: 5, len: 5 }
    );
}

#[test]
fn the_position_is_told_after_a_read() {
    let mut fds = FdTable::empty();
    let mut mem = page();
    let (fd, file) = with_file(&mut fds, b"/g/f", false);
    let bytes: Vec<u8> = (0..10).collect();
    assert_eq!(read_file_done(&mut fds, &mut mem, file, 100, Some(bytes)), 10);
    assert_eq!(lseek(&mut fds, [fd, 0, 1, 0, 0, 0]), LseekStep::Seek { file, to: 10 });
    assert_eq!(lseek_done(&mut fds, file, 10, true), 10);
    assert_eq!(
        read(&mut fds, &mut mem, [fd, 100, 1, 0, 0, 0]),
        ReadStep::File { file, pos: 10, len: 1 }
    );
}

#[test]
fn a_file_ends_with_an_empty_read() {
    let mut fds = FdTable::empty();
    let mut mem = page();
    let (_, file) = with_file(&mut fds, b"/g/f", false);
    assert_eq!(read_file_done(&mut fds, &mut mem, file, 100, Some(Vec::new())), 0);
    assert_eq!(fds.file(file).pos, 0);
    assert_eq!(read_file_done(&mut fds, &mut mem, file, 100, None), -EACCES);
}

#[test]
fn a_directory_is_given_whole() {
    let mut fds = FdTable::empty();
    let mut mem = page();
    let (fd, file) = with_file(&mut fds, b"/g/d", true);
    let all: Vec<u8> = (0..100).collect();
    for round in 0..2 {
        let mut given: Vec<u8> = Vec::new();
        for len in [7, 30, 1, 40, 60] {
            let a = [fd, 300, len, 0, 0, 0];
            let r = match getdents64(&mut fds, &mut mem, a) {
                DirStep::Done(r) => r,
                DirStep::List { file: f, .. } => {
                    assert_eq!((round, f), (0, file), "the records are listed once");
                    getdents64_listed(&mut fds, &mut mem, a, file, Ok(all.clone()))
                }
            };
            assert!(0 < r && r <= len);
            given.extend_from_slice(&mem[300..300 + r as usize]);
        }
        assert_eq!(given, all);
        for _ in 0..2 {
            assert!(matches!(getdents64(&mut fds, &mut mem, [fd, 300, 9, 0, 0, 0]), DirStep::Done(0)));
        }
        assert_eq!(lseek(&mut fds, [fd, 0, 0, 0, 0, 0]), LseekStep::Done(0));
    }
}

#[test]
fn a_file_is_written_at_its_position() {
    let mut fds = FdTable::empty();
    let mut mem = page();
    let (fd, file) = with_file(&mut fds, b"/g/f", false);
    mem[50..53].copy_from_slice(b"xyz");
    match edge_libos::sys::file::write(&mut fds, &mem, [fd, 50, 3, 0, 0, 0]) {
        WriteStep::File { file: f, pos, bytes } => {
            assert_eq!((f, pos), (file, 0));
            assert_eq!(bytes, b"xyz".to_vec());
        }
        _ => panic!("the host writes a file"),
    }
    assert_eq!(write_file_done(&mut fds, file, Some(3)), 3);
    assert_eq!(fds.file(file).pos, 3);
    assert!(write_file_done(&mut fds, file, None) < 0);
}

#[test]
fn seeking_moves_the_position() {
    let mut fds = FdTable::empty();
    let (fd, file) = with_file(&mut fds, b"/g/f", false);
    assert_eq!(
        lseek(&mut fds, [fd, 10, 0, 0, 0, 0]),
        LseekStep::Seek { file, to: 10 }
    );
    assert_eq!(lseek_done(&mut fds, file, 10, true), 10);
    assert_eq!(fds.file(file).pos, 10);
    assert_eq!(lseek(&mut fds, [fd, -3, 1, 0, 0, 0]), LseekStep::Seek { file, to: 7 });
    assert_eq!(lseek_done(&mut fds, file, 7, false), -EINVAL);
    assert_eq!(fds.file(file).pos, 10, "a failed seek moves nothing");
    assert_eq!(lseek(&mut fds, [fd, -11, 1, 0, 0, 0]), LseekStep::Done(-EINVAL));
    assert_eq!(lseek(&mut fds, [fd, i64::MAX, 1, 0, 0, 0]), LseekStep::Done(-EINVAL));
    assert_eq!(lseek(&mut fds, [fd, -5, 0, 0, 0, 0]), LseekStep::Seek { file, to: 0 });
    assert_eq!(lseek(&mut fds, [fd, 4, 2, 0, 0, 0]), LseekStep::Length { file });
    assert_eq!(lseek_end(4, Some(100)), 104);
    assert_eq!(lseek(&mut fds, [fd, 0, 9, 0, 0, 0]), LseekStep::Done(-EINVAL));
    assert_eq!(lseek(&mut fds, [99, 0, 0, 0, 0, 0]), LseekStep::Done(-EBADF));
    let pipe = fds.make_pipe(false);
    let p = fds.insert(Resource::PipeRead(pipe)) as i64;
    assert_eq!(lseek(&mut fds, [p, 0, 0, 0, 0, 0]), LseekStep::Done(-ESPIPE));
}

fn meta(kind: FileKind, len: u64) -> FileMeta {
    FileMeta {
        kind,
        perm: 0o644,
        readonly: false,
        ino: 5,
        nlink: 1,
        len,
        accessed: None,
        modified: None,
        created: None,
    }
}

#[test]
fn stat_of_a_descriptor() {
    let mut fds = FdTable::empty();
    let mut mem = page();
    let (fd, file) = with_file(&mut fds, b"/g/f", false);
    assert_eq!(fstat(&fds, &mut mem, [fd, 1000, 0, 0, 0, 0]), FstatStep::Meta { file });
    assert_eq!(fstat_done(&mut mem, 1000, Some(meta(FileKind::File, 77))), 0);
    assert_eq!(i64::from_le_bytes(mem[1048..1056].try_into().unwrap()), 77);
    assert_eq!(fstat_done(&mut mem, 65500, Some(meta(FileKind::File, 77))), -EFAULT);
    let pipe = fds.make_pipe(false);
    let p = fds.insert(Resource::PipeRead(pipe)) as i64;
    assert_eq!(fstat(&fds, &mut mem, [p, 2000, 0, 0, 0, 0]), FstatStep::Done(0));
    assert_eq!(fstat(&fds, &mut mem, [99, 2000, 0, 0, 0, 0]), FstatStep::Done(-EBADF));
}

#[test]
fn vectors_are_walked_in_order() {
    let mut mem = page();
    mem[512..516].copy_from_slice(&100u32.to_le_bytes());
    mem[516..520].copy_from_slice(&3u32.to_le_bytes());
    mem[520..524].copy_from_slice(&200u32.to_le_bytes());
    mem[524..528].copy_from_slice(&4u32.to_le_bytes());
    assert_eq!(parse_iovecs(&mem[512..528]), vec![(100, 3), (200, 4)]);
    let mut p = match writev(&mem, [1, 512, 2, 0, 0, 0]) {
        Ok(p) => p,
        Err(e) => panic!("got {e}"),
    };
    assert_eq!(p.next(), Some([1, 100, 3, 0, 0, 0]));
    p.feed(3);
    assert_eq!(p.next(), Some([1, 200, 4, 0, 0, 0]));
    p.feed(2);
    assert_eq!(p.next(), None);
    assert_eq!(p.outcome, Some(5));
    let mut q = match readv(&mem, [1, 512, 2, 0, 0, 0]) {
        Ok(p) => p,
        Err(e) => panic!("got {e}"),
    };
    assert!(q.next().is_some());
    q.feed(-EBADF);
    assert_eq!(q.next(), None);
    assert_eq!(q.outcome, Some(-EBADF));
}

#[test]
fn the_working_directory_is_told() {
    let mut mem = page();
    let cwd = split_steps(b"/srv/g");
    assert_eq!(getcwd(&cwd, &mut mem, [100, 64, 0, 0, 0, 0]), 6);
    assert_eq!(&mem[100..107], b"/srv/g\0");
    assert_eq!(getcwd(&cwd, &mut mem, [100, 3, 0, 0, 0, 0]), -ERANGE);
}

fn tree() -> Vfs {
    match Vfs::new(Ok(split_steps(b"/srv/g"))) {
        Ok(v) => v,
        Err(e) => panic!("no tree: {e}"),
    }
}

fn text(p: &GuestPath) -> String {
    String::from_utf8(p.text()).unwrap()
}

fn with_path(path: &[u8]) -> Vec<u8> {
    let mut mem = page();
    mem[100..100 + path.len()].copy_from_slice(path);
    mem
}

#[test]
fn opening_gives_a_descriptor() {
    let mut fds = FdTable::empty();
    let v = tree();
    let mem = with_path(b"a.txt");
    let req = match openat(&fds, &v, &mem, [AT_FDCWD, 100, 0o102, 0, 0, 0]) {
        Ok(r) => r,
        Err(e) => panic!("got {e}"),
    };
    assert_eq!(text(&req.path), "/srv/g/a.txt");
    assert!(req.options.read && req.options.write && req.options.create);
    let fd = openat_done(&mut fds, &v, req, Ok(false), false);
    assert_eq!(fd, 3);
    assert!(matches!(fds.get(3), Ok(Resource::File(_))));
    let again = match openat(&fds, &v, &mem, [AT_FDCWD, 100, 0, 0, 0, 0]) {
        Ok(r) => r,
        Err(e) => panic!("got {e}"),
    };
    assert_eq!(openat_done(&mut fds, &v, again, Err(IoErrorKind::NotFound), false), -ENOENT);
    let long = with_path(b"../../../../x");
    assert!(openat(&fds, &v, &long, [AT_FDCWD, 100, 0, 0, 0, 0]).is_err());
}

#[test]
fn host_errors_have_their_numbers() {
    assert_eq!(io_to_errno(IoErrorKind::NotFound), ENOENT);
    assert_eq!(io_to_errno(IoErrorKind::AlreadyExists), EEXIST);
    assert_eq!(io_to_errno(IoErrorKind::NotADirectory), ENOTDIR);
    assert_eq!(io_to_errno(IoErrorKind::IsADirectory), EISDIR);
    assert_eq!(io_to_errno(IoErrorKind::InvalidInput), EINVAL);
    assert_eq!(fs_reply(Ok(())), 0);
    assert_eq!(fs_reply(Err(IoErrorKind::NotFound)), -ENOENT);
}

#[test]
fn paths_of_calls_are_resolved() {
    let fds = FdTable::empty();
    let v = tree();
    let mut mem = with_path(b"one");
    mem[200..203].copy_from_slice(b"two");
    match renameat2(&fds, &v, &mem, [AT_FDCWD, 100, AT_FDCWD, 200, 1, 0]) {
        Ok(r) => {
            assert_eq!((text(&r.from), text(&r.to)), ("/srv/g/one".to_string(), "/srv/g/two".to_string()));
            assert!(r.no_replace);
            assert_eq!(rename_allowed(&r, true), Err(-EEXIST));
            assert_eq!(rename_allowed(&r, false), Ok(()));
        }
        Err(e) => panic!("got {e}"),
    }
    match renameat2(&fds, &v, &mem, [AT_FDCWD, 100, AT_FDCWD, 200, 2, 0]) {
        Ok(r) => {
            assert!(r.exchange && !r.no_replace);
            assert_eq!(rename_allowed(&r, true), Ok(()));
        }
        Err(e) => panic!("got {e}"),
    }
    match mkdir(&fds, &v, &mem, [100, 0o41755, 0, 0, 0, 0]) {
        Ok(r) => assert_eq!((text(&r.path), r.mode), ("/srv/g/one".to_string(), 0o755)),
        Err(e) => panic!("got {e}"),
    }
    assert!(matches!(mkdirat(&fds, &v, &mem, [AT_FDCWD, 4096, 0o777, 0, 0, 0]), Err(e) if e == -ENOENT));
    match link(&fds, &v, &mem, [100, 200, 0, 0, 0, 0]) {
        Ok((old, new)) => {
            assert_eq!((text(&old), text(&new)), ("/srv/g/one".to_string(), "/srv/g/two".to_string()))
        }
        Err(e) => panic!("got {e}"),
    }
    assert!(matches!(link(&fds, &v, &mem, [100, 4096, 0, 0, 0, 0]), Err(e) if e == -EINVAL));
    assert!(matches!(link(&fds, &v, &mem, [4096, 200, 0, 0, 0, 0]), Err(e) if e == -ENOENT));
    assert!(matches!(linkat(&fds, &v, &mem, [AT_FDCWD, 100, AT_FDCWD, 4096, 0, 0]), Err(e) if e == -ENOENT));
    match unlinkat(&fds, &v, &mem, [AT_FDCWD, 100, 0x200, 0, 0, 0]) {
        Ok(r) => assert!(r.directory),
        Err(e) => panic!("got {e}"),
    }
    match truncate(&fds, &v, &mem, [100, 9, 0, 0, 0, 0]) {
        Ok(r) => assert_eq!(r.len, 9),
        Err(e) => panic!("got {e}"),
    }
    assert!(matches!(truncate(&fds, &v, &mem, [100, -1, 0, 0, 0, 0]), Err(e) if e == -EINVAL));
    assert!(matches!(ftruncate(&fds, [9, 1, 0, 0, 0, 0]), Err(e) if e == -EBADF));
    match symlink(&fds, &v, &mem, [100, 200, 0, 0, 0, 0]) {
        Ok(l) => assert_eq!(l.target, b"one".to_vec()),
        Err(e) => panic!("got {e}"),
    }
    match chdir(&fds, &v, &mem, [100, 0, 0, 0, 0, 0]) {
        Ok(p) => assert_eq!(text(&p), "/srv/g/one"),
        Err(e) => panic!("got {e}"),
    }
    assert!(faccessat(&fds, &v, &mem, [AT_FDCWD, 100, 0, 0, 0, 0]).is_ok());
    assert_eq!(faccessat_done(0, Ok(meta(FileKind::File, 1))), 0);
    assert_eq!(faccessat_done(0, Err(IoErrorKind::NotFound)), -ENOENT);
}

#[test]
fn a_link_is_read() {
    let fds = FdTable::empty();
    let v = tree();
    let mut mem = with_path(b"ln");
    assert!(readlinkat(&fds, &v, &mem, [AT_FDCWD, 100, 300, 4, 0, 0]).is_ok());
    assert_eq!(readlinkat_done(&mut mem, 300, 16, Ok(b"target".to_vec())), 6);
    assert_eq!(&mem[300..307], b"target\0");
    assert_eq!(readlinkat_done(&mut mem, 300, 4, Ok(b"target".to_vec())), -ENAMETOOLONG);
    assert_eq!(readlinkat_done(&mut mem, 300, 16, Err(IoErrorKind::NotFound)), -ENOENT);
}

#[test]
fn stat_by_path() {
    let fds = FdTable::empty();
    let v = tree();
    let mut mem = with_path(b"f");
    match newfstatat(&fds, &v, &mem, [AT_FDCWD, 100, 400, 0, 0, 0]) {
        StatStep::Path(p) => assert_eq!(text(&p), "/srv/g/f"),
        _ => panic!("the host looks it up"),
    }
    assert_eq!(newfstatat_done(&v, &mut mem, 400, Ok(meta(FileKind::File, 3))), 0);
    assert_eq!(i64::from_le_bytes(mem[448..456].try_into().unwrap()), 3);
    assert_eq!(newfstatat_done(&v, &mut mem, 400, Err(IoErrorKind::NotFound)), -ENOENT);
}

#[test]
fn times_are_read_from_the_guest() {
    let fds = FdTable::empty();
    let v = tree();
    let mut mem = with_path(b"f");
    mem[500..508].copy_from_slice(&11i64.to_le_bytes());
    mem[508..516].copy_from_slice(&12i64.to_le_bytes());
    mem[516..524].copy_from_slice(&13i64.to_le_bytes());
    mem[524..532].copy_from_slice(&14i64.to_le_bytes());
    let t = timespec_from_bytes(&mem[500..516]);
    assert_eq!((t.secs, t.nanos, t.before_epoch), (11, 12, false));
    match utimensat(&fds, &v, &mem, [AT_FDCWD, 100, 500, 0, 0, 0]) {
        Ok(touch) => {
            let (a, m) = touch.times.expect("both times");
            assert_eq!((a.secs, a.nanos, m.secs, m.nanos), (11, 12, 13, 14));
        }
        Err(e) => panic!("got {e}"),
    }
}
