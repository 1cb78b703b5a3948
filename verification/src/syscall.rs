use vstd::prelude::*;
use vstd::string::StringSliceAdditionalSpecFns;
use vstd::utf8::valid_utf8;
use crate::fs::mount::{MountTable, mount_read_spec, mount_write_spec};
use crate::fs::store::Storage;
use crate::memory::mmap::{MmapState, map_address, mmap, mmap_fits, mmapped};
use crate::memory::paging::PageTables;
use crate::util::{c_str_len, c_str_len_spec};
use crate::wayland::protocol::str_from_utf8;

verus! {

/// Where the kernel's system call entry sends a call.
pub enum SyscallRoute {
    Read,
    Write,
    Open,
    Close,
    Mmap,
    Exit,
    Linux,
}

/// Calls below 100 with their own handler go to it; every other call goes
/// to the Linux compatibility layer.
pub fn route_syscall(num: u32) -> (r: SyscallRoute)
    ensures
        num >= 100 ==> r is Linux,
        num < 100 ==> r == (if num == 0 { SyscallRoute::Read } else if num == 1 { SyscallRoute::Write }
            else if num == 2 { SyscallRoute::Open } else if num == 3 { SyscallRoute::Close }
            else if num == 9 { SyscallRoute::Mmap } else if num == 60 { SyscallRoute::Exit } else { SyscallRoute::Linux }),
{
    if num >= 100 {
        SyscallRoute::Linux
    } else {
        match num {
            0 => SyscallRoute::Read,
            1 => SyscallRoute::Write,
            2 => SyscallRoute::Open,
            3 => SyscallRoute::Close,
            9 => SyscallRoute::Mmap,
            60 => SyscallRoute::Exit,
            _ => SyscallRoute::Linux,
        }
    }
}

/// Descriptors a process can have open.
pub const MAX_FDS: usize = 256;
/// Longest path `sys_open` reads.
pub const MAX_PATH: usize = 4096;

/// An open file: its path, the read offset, and the flags it was opened with.
pub struct FileDescriptor {
    pub path: Vec<u8>,
    pub offset: usize,
    pub flags: i32,
}

/// The descriptor slots: `None` for a free one.
pub struct FdTable {
    pub slots: Vec<Option<FileDescriptor>>,
}

/// A descriptor as values.
pub type FdView = (Seq<u8>, usize, i32);

pub open spec fn fd_view(s: Option<FileDescriptor>) -> Option<FdView> {
    match s {
        Some(f) => Some((f.path@, f.offset, f.flags)),
        None => None,
    }
}

impl FdTable {
    pub fn new() -> (t: Self)
        ensures
            t.view().len() == 0,
    {
        FdTable { slots: Vec::new() }
    }

    pub open spec fn view(&self) -> Seq<Option<FdView>> {
        self.slots@.map_values(|s: Option<FileDescriptor>| fd_view(s))
    }

    /// Descriptors read from the start of their file.
    pub open spec fn wf(&self) -> bool {
        forall|i: int| 0 <= i < self.view().len() && (#[trigger] self.view()[i]) is Some ==> self.view()[i].unwrap().1 == 0
    }
}

/// Adds the 256 free descriptor slots.
pub fn init(table: &mut FdTable)
    requires
        old(table).wf(),
    ensures
        final(table).wf(),
        final(table).view() == old(table).view() + Seq::new(MAX_FDS as nat, |i: int| None::<FdView>),
{
    let mut k: usize = 0;
    while k < MAX_FDS
        invariant
            k <= MAX_FDS,
            table.view() == old(table).view() + Seq::new(k as nat, |i: int| None::<FdView>),
            old(table).wf(),
        decreases MAX_FDS - k,
    {
        let ghost before = table.view();
        table.slots.push(None);
        k += 1;
        proof {
            assert(table.view() =~= before.push(None));
            assert(table.view() =~= old(table).view() + Seq::new(k as nat, |i: int| None::<FdView>));
        }
    }
    proof {
        assert forall|i: int| 0 <= i < table.view().len() && (#[trigger] table.view()[i]) is Some implies table.view()[i].unwrap().1 == 0 by {
            assert(i < old(table).view().len());
            assert(table.view()[i] == old(table).view()[i]);
        }
    }
}

/// The descriptor `fd` names, if it is in range and open.
pub open spec fn open_fd(v: Seq<Option<FdView>>, fd: i32) -> Option<FdView> {
    if fd < 0 || fd >= MAX_FDS || fd >= v.len() { None } else { v[fd as int] }
}

/// The path a descriptor's bytes name: the bytes when they are UTF-8, else
/// the empty path.
pub open spec fn path_text(p: Seq<u8>) -> Seq<u8> {
    if valid_utf8(p) { p } else { Seq::empty() }
}

/// The text of a descriptor's path.
fn fd_path(path: &Vec<u8>) -> (s: &str)
    ensures
        s.spec_bytes() == path_text(path@),
{
    match str_from_utf8(path.as_slice()) {
        Some(s) => s,
        None => {
            proof {
                reveal_strlit("");
                vstd::string::is_ascii_spec_bytes("");
                assert("".spec_bytes() =~= Seq::<u8>::empty());
            }
            ""
        },
    }
}

/// The index of the first free slot.
fn first_free(slots: &Vec<Option<FileDescriptor>>) -> (r: Option<usize>)
    ensures
        r matches Some(i) ==> i < slots@.len() && slots@[i as int] is None && forall|j: int| 0 <= j < i ==> slots@[j] is Some,
        r is None ==> forall|j: int| 0 <= j < slots@.len() ==> slots@[j] is Some,
{
    let mut i: usize = 0;
    while i < slots.len()
        invariant
            i <= slots@.len(),
            forall|j: int| 0 <= j < i ==> slots@[j] is Some,
        decreases slots@.len() - i,
    {
        if slots[i].is_none() {
            return Some(i);
        }
        i += 1;
    }
    None
}

/// The first free slot of a table view.
pub open spec fn first_free_slot(v: Seq<Option<FdView>>, i: int) -> bool {
    0 <= i < v.len() && v[i] is None && forall|j: int| 0 <= j < i ==> v[j] is Some
}

/// Opening `path`: the first free slot gets a descriptor at offset 0, and
/// its index is the result; -1, with nothing changed, when no slot is free.
pub open spec fn open_step(v: Seq<Option<FdView>>, path: Seq<u8>, flags: i32) -> (i32, Seq<Option<FdView>>) {
    if exists|i: int| first_free_slot(v, i) {
        let i = choose|i: int| first_free_slot(v, i);
        (i as i32, v.update(i, Some((path, 0usize, flags))))
    } else {
        (-1i32, v)
    }
}

/// Opens the NUL-terminated path at the start of `user` (at most 4096
/// bytes): the first free slot gets a descriptor at offset 0, and its
/// index is returned; -1 when no slot is free.
pub fn sys_open(table: &mut FdTable, user: &[u8], flags: i32) -> (r: i32)
    requires
        old(table).wf(),
    ensures
        final(table).wf(),
        (r, final(table).view()) == open_step(old(table).view(), user@.subrange(0, c_str_len_spec(user@, MAX_PATH as int)), flags),
{
    let len = c_str_len(user, MAX_PATH);
    let ghost v = table.view();
    match first_free(&table.slots) {
        Some(i) => {
            let mut path: Vec<u8> = Vec::new();
            let mut k: usize = 0;
            while k < len
                invariant
                    k <= len,
                    len <= user@.len(),
                    path@ == user@.subrange(0, k as int),
                decreases len - k,
            {
                path.push(user[k]);
                k += 1;
                proof {
                    assert(path@ =~= user@.subrange(0, k as int));
                }
            }
            proof {
                assert(first_free_slot(v, i as int));
                let c = choose|c: int| first_free_slot(v, c);
                if c < i {
                    assert(v[c] is Some);
                } else if c > i {
                    assert(v[i as int] is Some);
                }
            }
            table.slots.set(i, Some(FileDescriptor { path, offset: 0, flags }));
            proof {
                assert(table.view() =~= v.update(i as int, Some((user@.subrange(0, len as int), 0usize, flags))));
            }
            i as i32
        },
        None => {
            proof {
                assert forall|c: int| !first_free_slot(v, c) by {
                    if 0 <= c < v.len() {
                        assert(table.slots@[c] is Some);
                    }
                }
            }
            -1
        },
    }
}

/// Closing a descriptor just opened frees its slot again: the table is as
/// it was before the open. (An open that found no free slot changed
/// nothing.)
pub proof fn lemma_open_then_close(v: Seq<Option<FdView>>, path: Seq<u8>, flags: i32)
    requires
        v.len() <= MAX_FDS,
    ensures
        ({
            let (fd, v1) = open_step(v, path, flags);
            &&& fd >= 0 ==> 0 <= fd < MAX_FDS && fd < v1.len() && v1.update(fd as int, None) == v
            &&& fd < 0 ==> v1 == v
        }),
{
    if exists|i: int| first_free_slot(v, i) {
        let i = choose|i: int| first_free_slot(v, i);
        assert(v.update(i, Some((path, 0usize, flags))).update(i, None) =~= v);
    }
}

/// Closes `fd`: its slot becomes free. -1 when it is out of range.
pub fn sys_close(table: &mut FdTable, fd: i32) -> (r: i32)
    requires
        old(table).wf(),
    ensures
        final(table).wf(),
        (fd < 0 || fd >= MAX_FDS || fd >= old(table).view().len()) ==> r == -1 && final(table).view() == old(table).view(),
        !(fd < 0 || fd >= MAX_FDS || fd >= old(table).view().len()) ==> r == 0 && final(table).view()
            == old(table).view().update(fd as int, None),
{
    if fd < 0 || fd >= MAX_FDS as i32 {
        return -1;
    }
    let i = fd as usize;
    if i < table.slots.len() {
        table.slots.set(i, None);
        proof {
            assert(table.view() =~= old(table).view().update(fd as int, None));
        }
        return 0;
    }
    -1
}

/// What a read of an open file gives: at most `count` bytes of the file
/// from the descriptor's offset.
pub open spec fn read_part(data: Seq<u8>, offset: int, count: int) -> Seq<u8> {
    let avail = data.len() - offset;
    let n = if count < avail { count } else { avail };
    data.subrange(offset, offset + n)
}

/// Reads from `fd`: the bytes a read of its file gives from its offset,
/// at most `count` of them, with their number; -1 and no bytes when `fd`
/// is not open or the file cannot be read.
pub fn sys_read(table: &FdTable, mounts: &MountTable, storage: &mut Storage, fd: i32, count: usize) -> (r: (i32, Vec<u8>))
    requires
        table.wf(),
        old(storage).wf(),
        open_fd(table.view(), fd) matches Some(f) ==> mount_read_spec(*mounts, old(storage).store(), path_text(f.0)) is Some,
    ensures
        final(storage).wf(),
        match open_fd(table.view(), fd) {
            None => r.0 == -1 && r.1@.len() == 0 && *final(storage) == *old(storage),
            Some(f) => match mount_read_spec(*mounts, old(storage).store(), path_text(f.0)) {
                Some((Ok(data), st)) => st == final(storage).store() && r.1@ == read_part(data, f.1 as int, count as int)
                    && r.0 == r.1@.len() as i32,
                Some((Err(e), st)) => st == final(storage).store() && r.0 == -1 && r.1@.len() == 0,
                None => false,
            },
        },
{
    if fd < 0 || fd >= MAX_FDS as i32 {
        return (-1, Vec::new());
    }
    let i = fd as usize;
    if i >= table.slots.len() {
        return (-1, Vec::new());
    }
    match &table.slots[i] {
        None => (-1, Vec::new()),
        Some(file) => {
            proof {
                assert(table.view()[i as int] == fd_view(table.slots@[i as int]));
            }
            let path = fd_path(&file.path);
            match crate::fs::mount::read_file(mounts, storage, path) {
                Ok(data) => {
                    let offset = file.offset;
                    let avail = data.len() - offset;
                    let to_read = if count < avail { count } else { avail };
                    let mut out: Vec<u8> = Vec::new();
                    let mut k: usize = 0;
                    while k < to_read
                        invariant
                            k <= to_read,
                            offset + to_read <= data@.len(),
                            data@.len() <= usize::MAX,
                            out@ == data@.subrange(offset as int, offset + k),
                        decreases to_read - k,
                    {
                        out.push(data[offset + k]);
                        k += 1;
                        proof {
                            assert(out@ =~= data@.subrange(offset as int, offset + k));
                        }
                    }
                    (to_read as i32, out)
                },
                Err(_) => (-1, Vec::new()),
            }
        },
    }
}

/// Writes `data` over the file of `fd`; gives the byte count, or -1 when
/// `fd` is not open or the write fails.
pub fn sys_write(table: &FdTable, mounts: &MountTable, storage: &mut Storage, fd: i32, data: &[u8]) -> (r: i32)
    requires
        table.wf(),
        old(storage).wf(),
        open_fd(table.view(), fd) matches Some(f) ==> mount_write_spec(*mounts, old(storage).store(), path_text(f.0), data@) is Some,
    ensures
        final(storage).wf(),
        match open_fd(table.view(), fd) {
            None => r == -1 && *final(storage) == *old(storage),
            Some(f) => match mount_write_spec(*mounts, old(storage).store(), path_text(f.0), data@) {
                Some((Ok(()), st)) => st == final(storage).store() && r == data@.len() as i32,
                Some((Err(e), st)) => st == final(storage).store() && r == -1,
                None => false,
            },
        },
{
    if fd < 0 || fd >= MAX_FDS as i32 {
        return -1;
    }
    let i = fd as usize;
    if i >= table.slots.len() {
        return -1;
    }
    match &table.slots[i] {
        None => -1,
        Some(file) => {
            proof {
                assert(table.view()[i as int] == fd_view(table.slots@[i as int]));
            }
            let path = fd_path(&file.path);
            match crate::fs::mount::write_file(mounts, storage, path, data) {
                Ok(()) => data.len() as i32,
                Err(_) => -1,
            }
        },
    }
}

/// Maps anonymous memory (see `mmap`); gives the address as an `i32`.
pub fn sys_mmap(state: &mut MmapState, pt: &mut PageTables, addr: usize, length: usize, prot: i32, flags: i32) -> (r: i32)
    requires
        old(pt).wf(),
        mmap_fits(*old(state), *old(pt), addr, length, flags),
    ensures
        final(pt).wf(),
        r == map_address(*old(state), addr) as i32,
        mmapped(*old(state), *old(pt), *final(state), *final(pt), addr, length, flags, -1i32, 0usize),
{
    match mmap(state, pt, addr, length, prot, flags, -1, 0) {
        Ok(a) => a as i32,
        Err(_) => -1,
    }
}

} // verus!
