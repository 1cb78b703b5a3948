use vstd::prelude::*;
use vstd::string::StringSliceAdditionalSpecFns;
use crate::fs::FileStat;
use crate::fs::mount::{MountTable, mount_stat_spec};
use crate::fs::store::Storage;
use crate::syscall::{FdTable, MAX_PATH, open_step, path_text, sys_close, sys_open, sys_read, sys_write};
use crate::util::{c_str_len, c_str_len_spec};
use crate::wayland::protocol::str_from_utf8;

verus! {

/// Longest path the compatibility layer copies in.
pub const COMPAT_PATH_MAX: usize = 255;
/// A regular file with mode 0644, as `fstat` reports every descriptor.
pub const FSTAT_MODE: u64 = 0o100644;

/// The path at the start of `user` as the compatibility layer copies it:
/// up to the first NUL, at most 255 bytes.
pub open spec fn compat_path(user: Seq<u8>) -> Seq<u8> {
    user.subrange(0, c_str_len_spec(user, COMPAT_PATH_MAX as int))
}

/// Copies the path at the start of `user` into a zeroed 256-byte buffer.
fn copy_path(user: &[u8]) -> (r: ([u8; 256], usize))
    ensures
        r.1 == c_str_len_spec(user@, COMPAT_PATH_MAX as int),
        r.1 <= COMPAT_PATH_MAX,
        r.0@ == compat_path(user@) + Seq::new((256 - r.1) as nat, |i: int| 0u8),
{
    let len = c_str_len(user, COMPAT_PATH_MAX);
    let mut path_buf = [0u8; 256];
    let mut k: usize = 0;
    while k < len
        invariant
            k <= len,
            len <= COMPAT_PATH_MAX,
            len <= user@.len(),
            forall|j: int| 0 <= j < k ==> path_buf@[j] == user@[j],
            forall|j: int| k <= j < 256 ==> path_buf@[j] == 0,
        decreases len - k,
    {
        path_buf[k] = user[k];
        k += 1;
    }
    proof {
        assert(path_buf@ =~= compat_path(user@) + Seq::new((256 - len) as nat, |i: int| 0u8));
    }
    (path_buf, len)
}

/// A buffer that holds a path and then zeros reads back as that path when
/// the path is shorter than the buffer.
proof fn lemma_copied_path(p: Seq<u8>, n: nat)
    requires
        n > 0,
        p.len() <= MAX_PATH,
        forall|j: int| 0 <= j < p.len() ==> p[j] != 0,
    ensures
        ({
            let b = p + Seq::new(n, |i: int| 0u8);
            b.subrange(0, c_str_len_spec(b, MAX_PATH as int)) == p
        }),
{
    let b = p + Seq::new(n, |i: int| 0u8);
    crate::util::lemma_c_str_len_bounds(b, MAX_PATH as int);
    crate::util::lemma_c_str_len_exact(b, MAX_PATH as int, p.len() as int);
    assert(b.subrange(0, p.len() as int) =~= p);
}

/// Reads from `fd` through `sys_read`.
pub fn compat_read(table: &FdTable, mounts: &MountTable, storage: &mut Storage, fd: i32, count: usize) -> (r: (isize, Vec<u8>))
    requires
        table.wf(),
        old(storage).wf(),
        crate::syscall::open_fd(table.view(), fd) matches Some(f) ==> crate::fs::mount::mount_read_spec(
            *mounts,
            old(storage).store(),
            path_text(f.0),
        ) is Some,
    ensures
        final(storage).wf(),
        match crate::syscall::open_fd(table.view(), fd) {
            None => r.0 == -1 && r.1@.len() == 0 && *final(storage) == *old(storage),
            Some(f) => match crate::fs::mount::mount_read_spec(*mounts, old(storage).store(), path_text(f.0)) {
                Some((Ok(data), st)) => st == final(storage).store() && r.1@ == crate::syscall::read_part(
                    data,
                    f.1 as int,
                    count as int,
                ) && r.0 == (r.1@.len() as i32) as isize,
                Some((Err(e), st)) => st == final(storage).store() && r.0 == -1 && r.1@.len() == 0,
                None => false,
            },
        },
{
    let (n, bytes) = sys_read(table, mounts, storage, fd, count);
    (n as isize, bytes)
}

/// Writes to `fd` through `sys_write`.
pub fn compat_write(table: &FdTable, mounts: &MountTable, storage: &mut Storage, fd: i32, data: &[u8]) -> (r: isize)
    requires
        table.wf(),
        old(storage).wf(),
        crate::syscall::open_fd(table.view(), fd) matches Some(f) ==> crate::fs::mount::mount_write_spec(
            *mounts,
            old(storage).store(),
            path_text(f.0),
            data@,
        ) is Some,
    ensures
        final(storage).wf(),
        match crate::syscall::open_fd(table.view(), fd) {
            None => r == -1 && *final(storage) == *old(storage),
            Some(f) => match crate::fs::mount::mount_write_spec(*mounts, old(storage).store(), path_text(f.0), data@) {
                Some((Ok(()), st)) => st == final(storage).store() && r == (data@.len() as i32) as isize,
                Some((Err(e), st)) => st == final(storage).store() && r == -1,
                None => false,
            },
        },
{
    sys_write(table, mounts, storage, fd, data) as isize
}

/// Opens the path at the start of `user` (copied up to its NUL, at most
/// 255 bytes) through `sys_open`.
pub fn compat_open(table: &mut FdTable, user: &[u8], flags: i32, mode: u32) -> (r: isize)
    requires
        old(table).wf(),
    ensures
        final(table).wf(),
        ({
            let (k, v) = open_step(old(table).view(), compat_path(user@), flags);
            r == k as isize && final(table).view() == v
        }),
{
    let (path_buf, len) = copy_path(user);
    proof {
        crate::util::lemma_c_str_len_bounds(user@, COMPAT_PATH_MAX as int);
        lemma_copied_path(compat_path(user@), (256 - len) as nat);
    }
    sys_open(table, &path_buf, flags) as isize
}

/// Closes `fd` through `sys_close`.
pub fn compat_close(table: &mut FdTable, fd: i32) -> (r: isize)
    requires
        old(table).wf(),
    ensures
        final(table).wf(),
        (fd < 0 || fd >= 256 || fd >= old(table).view().len()) ==> r == -1 && final(table).view() == old(table).view(),
        !(fd < 0 || fd >= 256 || fd >= old(table).view().len()) ==> r == 0 && final(table).view()
            == old(table).view().update(fd as int, None),
{
    sys_close(table, fd) as isize
}

/// The ten `stat` words the layer fills: device, inode, mode, links, uid,
/// gid, rdev, size, block size, and the size in 512-byte blocks.
pub open spec fn stat_words(s: FileStat) -> Seq<u64> {
    seq![0u64, 0u64, s.mode as u64, 1u64, s.uid as u64, s.gid as u64, 0u64, s.size, 512u64, ((s.size + 511) / 512) as u64]
}

/// The `stat` words of a file.
pub fn fill_stat(s: &FileStat) -> (w: [u64; 10])
    requires
        s.size + 511 <= u64::MAX,
    ensures
        w@ == stat_words(*s),
{
    let w = [0u64, 0, s.mode as u64, 1, s.uid as u64, s.gid as u64, 0, s.size, 512, (s.size + 511) / 512];
    proof {
        assert(w@ =~= stat_words(*s));
    }
    w
}

/// Describes the path at the start of `user` (copied up to its NUL, at
/// most 255 bytes; read as UTF-8, else as the empty path): 0 and its
/// `stat` words, or -2 when it cannot be described.
pub fn compat_stat(mounts: &MountTable, storage: &mut Storage, user: &[u8]) -> (r: (isize, Option<[u64; 10]>))
    requires
        old(storage).wf(),
        mount_stat_spec(*mounts, old(storage).store(), path_text(compat_path(user@))) is Some,
    ensures
        final(storage).wf(),
        match mount_stat_spec(*mounts, old(storage).store(), path_text(compat_path(user@))) {
            Some((Ok(s), st)) => st == final(storage).store() && r.0 == 0 && (r.1 matches Some(w) && w@ == stat_words(s)),
            Some((Err(e), st)) => st == final(storage).store() && r.0 == -2 && r.1 is None,
            None => false,
        },
{
    let (path_buf, len) = copy_path(user);
    let full = path_buf.as_slice();
    let bytes = &full[0..len];
    proof {
        crate::util::lemma_c_str_len_bounds(user@, COMPAT_PATH_MAX as int);
        assert(full@ == path_buf@);
        assert(bytes@ == full@.subrange(0, len as int));
        assert(compat_path(user@).len() == len);
        assert(bytes@ =~= compat_path(user@));
    }
    let path_str = match str_from_utf8(bytes) {
        Some(s) => s,
        None => {
            proof {
                reveal_strlit("");
                vstd::string::is_ascii_spec_bytes("");
                assert("".spec_bytes() =~= Seq::<u8>::empty());
            }
            ""
        },
    };
    match crate::fs::mount::stat(mounts, storage, path_str) {
        Ok(stat) => {
            proof {
                assert(stat.size <= u32::MAX);
            }
            (0, Some(fill_stat(&stat)))
        },
        Err(_) => (-2, None),
    }
}

/// The 16 `stat` words reported for any descriptor: a 4096-byte regular
/// file with mode 0644.
pub open spec fn fstat_words() -> Seq<u64> {
    Seq::new(16, |i: int| if i == 2 { FSTAT_MODE } else if i == 7 { 4096u64 } else { 0u64 })
}

/// Describes a descriptor: every one is reported as a 4096-byte regular
/// file with mode 0644.
pub fn compat_fstat(fd: i32) -> (r: (isize, [u64; 16]))
    ensures
        r.0 == 0,
        r.1@ == fstat_words(),
{
    let mut buf = [0u64; 16];
    buf[2] = FSTAT_MODE;
    buf[7] = 4096;
    proof {
        assert(buf@ =~= fstat_words());
    }
    (0, buf)
}

/// File-control requests: `F_GETFD` (1 is command 2 here) answers 1, every
/// other command 0.
pub fn compat_fcntl(fd: i32, cmd: i32, arg: usize) -> (r: isize)
    ensures
        r == (if cmd == 2 { 1isize } else { 0isize }),
{
    match cmd {
        0 => 0,
        1 => 0,
        2 => 1,
        3 => 0,
        4 => 0,
        _ => 0,
    }
}

/// Opens a path relative to a directory: directories are ignored, so this
/// is `compat_open`.
pub fn compat_openat(table: &mut FdTable, dirfd: i32, user: &[u8], flags: i32, mode: u32) -> (r: isize)
    requires
        old(table).wf(),
    ensures
        final(table).wf(),
        ({
            let (k, v) = open_step(old(table).view(), compat_path(user@), flags);
            r == k as isize && final(table).view() == v
        }),
{
    compat_open(table, user, flags, mode)
}

/// Describes a path relative to a directory: directories and flags are
/// ignored, so this is `compat_stat`.
pub fn compat_fstatat(mounts: &MountTable, storage: &mut Storage, dirfd: i32, user: &[u8], flags: i32) -> (r: (isize, Option<[u64; 10]>))
    requires
        old(storage).wf(),
        mount_stat_spec(*mounts, old(storage).store(), path_text(compat_path(user@))) is Some,
    ensures
        final(storage).wf(),
        match mount_stat_spec(*mounts, old(storage).store(), path_text(compat_path(user@))) {
            Some((Ok(s), st)) => st == final(storage).store() && r.0 == 0 && (r.1 matches Some(w) && w@ == stat_words(s)),
            Some((Err(e), st)) => st == final(storage).store() && r.0 == -2 && r.1 is None,
            None => false,
        },
{
    compat_stat(mounts, storage, user)
}

} // verus!
