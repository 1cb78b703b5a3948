use vstd::prelude::*;
use vstd::bytes::{spec_u16_to_le_bytes, spec_u32_to_le_bytes, u16_to_le_bytes, u32_to_le_bytes};
use vstd::string::StringSliceAdditionalSpecFns;
use crate::fs::{DirEntry, dir_entry_is};
use crate::fs::ext2::block::{lemma_read_data_kept, read_inode_data, read_inode_data_spec, write_inode_data, write_inode_data_spec};
use crate::fs::ext2::inode::{InodeView, lemma_read_inode_kept, read_inode, read_inode_spec, write_inode, write_inode_spec};
use crate::fs::ext2::layout::zeros;
use crate::fs::cache::CACHE_SIZE;
use crate::fs::store::{Storage, Store, coherent, kept, lemma_kept_refl, lemma_kept_trans};
use crate::util::{bytes_eq, str_eq, zero_bytes};
use crate::wayland::protocol::{read_u16, read_u32, wire_u16, wire_u32};

verus! {

/// The inode of the root directory.
pub const ROOT_INODE: u32 = 2;
pub const SLASH: u8 = 0x2F;

/// The byte ranges of the non-empty pieces of `p` between slashes, found
/// scanning from `i` with the current piece starting at `start`.
pub open spec fn ranges_acc(p: Seq<u8>, i: int, start: int, acc: Seq<(int, int)>) -> Seq<(int, int)>
    decreases p.len() - i,
{
    if i >= p.len() {
        if start < p.len() { acc.push((start, p.len() as int)) } else { acc }
    } else if p[i] == SLASH {
        ranges_acc(p, i + 1, i + 1, if start < i { acc.push((start, i)) } else { acc })
    } else {
        ranges_acc(p, i + 1, start, acc)
    }
}

/// The components of a path: its non-empty pieces between slashes, as
/// byte ranges, in order.
pub open spec fn path_ranges(p: Seq<u8>) -> Seq<(int, int)> {
    ranges_acc(p, 0, 0, Seq::empty())
}

/// Every range is a non-empty piece of `p`.
pub open spec fn ranges_valid(p: Seq<u8>, rs: Seq<(int, int)>) -> bool {
    forall|k: int| 0 <= k < rs.len() ==> 0 <= (#[trigger] rs[k]).0 < rs[k].1 <= p.len()
}

pub open spec fn ranges_view(v: Seq<(usize, usize)>) -> Seq<(int, int)> {
    v.map_values(|r: (usize, usize)| (r.0 as int, r.1 as int))
}

proof fn lemma_ranges_acc_valid(p: Seq<u8>, i: int, start: int, acc: Seq<(int, int)>)
    requires
        0 <= start <= i <= p.len(),
        ranges_valid(p, acc),
    ensures
        ranges_valid(p, ranges_acc(p, i, start, acc)),
    decreases p.len() - i,
{
    if i >= p.len() {
    } else if p[i] == SLASH {
        lemma_ranges_acc_valid(p, i + 1, i + 1, if start < i { acc.push((start, i)) } else { acc });
    } else {
        lemma_ranges_acc_valid(p, i + 1, start, acc);
    }
}

/// Splits a path into its components (see `path_ranges`).
pub fn split_path(p: &[u8]) -> (r: Vec<(usize, usize)>)
    ensures
        ranges_view(r@) == path_ranges(p@),
        ranges_valid(p@, path_ranges(p@)),
{
    proof {
        lemma_ranges_acc_valid(p@, 0, 0, Seq::empty());
    }
    let mut out: Vec<(usize, usize)> = Vec::new();
    proof {
        assert(ranges_view(out@) =~= Seq::<(int, int)>::empty());
    }
    let mut start: usize = 0;
    let mut i: usize = 0;
    while i < p.len()
        invariant
            start <= i <= p@.len(),
            ranges_acc(p@, i as int, start as int, ranges_view(out@)) == path_ranges(p@),
        decreases p@.len() - i,
    {
        if p[i] == SLASH {
            if start < i {
                let ghost before = out@;
                out.push((start, i));
                proof {
                    assert(ranges_view(out@) =~= ranges_view(before).push((start as int, i as int)));
                }
            }
            start = i + 1;
        }
        i += 1;
    }
    if start < p.len() {
        let ghost before = out@;
        out.push((start, p.len()));
        proof {
            assert(ranges_view(out@) =~= ranges_view(before).push((start as int, p@.len() as int)));
        }
    }
    out
}

/// How far `off` is from the end `len`; zero past it.
pub open spec fn dist(len: int, off: int) -> int {
    if off < len { len - off } else { 0 }
}

/// The inode of the entry named `name` in directory bytes `data`, walking
/// records from `off`: a record with inode 0 or length 0 ends the walk.
pub open spec fn dir_find(data: Seq<u8>, name: Seq<u8>, off: int) -> Option<u32>
    decreases dist(data.len() as int, off),
{
    if off < 0 || off >= data.len() || off + 8 > data.len() {
        None
    } else {
        let ino = wire_u32(data, off);
        let rec = wire_u16(data, off + 4) as int;
        let nl = data[off + 6] as int;
        if ino == 0 || rec == 0 {
            None
        } else if nl > 0 && off + 8 + nl <= data.len() && data.subrange(off + 8, off + 8 + nl) == name {
            Some(ino)
        } else {
            dir_find(data, name, off + rec)
        }
    }
}

/// The named entries of directory bytes `data` from `off` on: name and
/// inode, in order; records whose name is empty or runs past the end are
/// skipped.
pub open spec fn dir_list(data: Seq<u8>, off: int) -> Seq<(Seq<u8>, u32)>
    decreases dist(data.len() as int, off),
{
    if off < 0 || off >= data.len() || off + 8 > data.len() {
        Seq::empty()
    } else {
        let ino = wire_u32(data, off);
        let rec = wire_u16(data, off + 4) as int;
        let nl = data[off + 6] as int;
        if ino == 0 || rec == 0 {
            Seq::empty()
        } else if nl > 0 && off + 8 + nl <= data.len() {
            seq![(data.subrange(off + 8, off + 8 + nl), ino)] + dir_list(data, off + rec)
        } else {
            dir_list(data, off + rec)
        }
    }
}

/// Finds the entry named `name` in directory bytes.
pub fn find_entry(data: &[u8], name: &[u8]) -> (r: Option<u32>)
    requires
        data@.len() + 65536 <= usize::MAX,
    ensures
        r == dir_find(data@, name@, 0),
{
    let mut offset: usize = 0;
    while offset < data.len()
        invariant
            data@.len() + 65536 <= usize::MAX,
            offset < data@.len() + 65536,
            dir_find(data@, name@, offset as int) == dir_find(data@, name@, 0),
        decreases dist(data@.len() as int, offset as int),
    {
        if offset + 8 > data.len() {
            return None;
        }
        let inode = read_u32(data, offset);
        let rec_len = read_u16(data, offset + 4) as usize;
        let name_len = data[offset + 6] as usize;
        if inode == 0 || rec_len == 0 {
            return None;
        }
        if name_len > 0 && offset + 8 + name_len <= data.len() {
            let entry_name = &data[offset + 8..offset + 8 + name_len];
            if bytes_eq(entry_name, name) {
                return Some(inode);
            }
        }
        offset += rec_len;
    }
    None
}

/// Lists the named entries of directory bytes (see `dir_list`).
#[verifier::spinoff_prover]
pub fn list_entries(data: &[u8]) -> (r: Vec<DirEntry>)
    requires
        data@.len() + 65536 <= usize::MAX,
    ensures
        r@.len() == dir_list(data@, 0).len(),
        forall|k: int| 0 <= k < r@.len() ==> dir_entry_is(#[trigger] r@[k], dir_list(data@, 0)[k].0, dir_list(data@, 0)[k].1),
{
    let mut entries: Vec<DirEntry> = Vec::new();
    let mut offset: usize = 0;
    while offset < data.len()
        invariant
            data@.len() + 65536 <= usize::MAX,
            offset < data@.len() + 65536,
            entries@.len() + dir_list(data@, offset as int).len() == dir_list(data@, 0).len(),
            forall|k: int| 0 <= k < entries@.len() ==> dir_entry_is(#[trigger] entries@[k], dir_list(data@, 0)[k].0, dir_list(data@, 0)[k].1),
            forall|k: int| 0 <= k < dir_list(data@, offset as int).len() ==> #[trigger] dir_list(data@, offset as int)[k]
                == dir_list(data@, 0)[entries@.len() + k],
        ensures
            dir_list(data@, offset as int).len() == 0,
        decreases dist(data@.len() as int, offset as int),
    {
        if offset + 8 > data.len() {
            break;
        }
        let inode = read_u32(data, offset);
        let rec_len = read_u16(data, offset + 4) as usize;
        let name_len = data[offset + 6] as usize;
        if inode == 0 || rec_len == 0 {
            break;
        }
        if name_len > 0 && offset + 8 + name_len <= data.len() {
            let mut name: [u8; 256] = zero_bytes();
            let mut j: usize = 0;
            while j < name_len
                invariant
                    j <= name_len,
                    name_len < 256,
                    data@.len() + 65536 <= usize::MAX,
                    offset + 8 + name_len <= data@.len(),
                    forall|t: int| 0 <= t < j ==> name@[t] == data@[offset + 8 + t],
                    forall|t: int| j <= t < 256 ==> name@[t] == 0,
                decreases name_len - j,
            {
                name[j] = data[offset + 8 + j];
                j += 1;
            }
            let ghost here = dir_list(data@, offset as int);
            proof {
                assert(name@ =~= data@.subrange(offset + 8, offset + 8 + name_len) + Seq::new((256 - name_len) as nat, |i: int| 0u8));
                assert(here[0] == (data@.subrange(offset + 8, offset + 8 + name_len), inode));
                assert(here.drop_first() =~= dir_list(data@, offset + rec_len));
            }
            entries.push(DirEntry { name, name_len, inode });
        }
        offset += rec_len;
    }
    entries
}

/// The inode of `name` in directory `dir`, read through the cache; `None`
/// when reading the directory would fail an arithmetic bound.
pub open spec fn find_spec(st: Store, d: usize, dir: u32, name: Seq<u8>) -> Option<(Result<u32, ()>, Store)> {
    match read_inode_spec(st, d, dir) {
        None => None,
        Some((Err(e), st1)) => Some((Err(e), st1)),
        Some((Ok(x), st1)) => match read_inode_data_spec(st1, d, x) {
            None => None,
            Some((Err(e), st2)) => Some((Err(e), st2)),
            Some((Ok(data), st2)) => if data.len() + 65536 > usize::MAX {
                None
            } else {
                match dir_find(data, name, 0) {
                    Some(n) => Some((Ok(n), st2)),
                    None => Some((Err(()), st2)),
                }
            },
        },
    }
}

/// Finds `name` in directory `dir_inode` (see `find_spec`).
fn find_in_directory(storage: &mut Storage, device: usize, dir_inode: u32, name: &[u8]) -> (r: Result<u32, ()>)
    requires
        old(storage).wf(),
        find_spec(old(storage).store(), device, dir_inode, name@) is Some,
    ensures
        final(storage).wf(),
        find_spec(old(storage).store(), device, dir_inode, name@) == Some((r, final(storage).store())),
{
    let inode_data = match read_inode(storage, device, dir_inode) {
        Ok(i) => i,
        Err(e) => {
            return Err(e);
        },
    };
    let data = match read_inode_data(storage, device, &inode_data) {
        Ok(d) => d,
        Err(e) => {
            return Err(e);
        },
    };
    match find_entry(data.as_slice(), name) {
        Some(n) => Ok(n),
        None => Err(()),
    }
}

/// Walking the components `rs[k..]` of path `p` from directory `cur`.
pub open spec fn walk_spec(st: Store, d: usize, p: Seq<u8>, rs: Seq<(int, int)>, k: int, cur: u32) -> Option<(Result<u32, ()>, Store)>
    decreases rs.len() - k,
{
    if k < 0 || k >= rs.len() {
        Some((Ok(cur), st))
    } else {
        match find_spec(st, d, cur, p.subrange(rs[k].0, rs[k].1)) {
            None => None,
            Some((Err(e), st1)) => Some((Err(e), st1)),
            Some((Ok(n), st1)) => walk_spec(st1, d, p, rs, k + 1, n),
        }
    }
}

/// The inode a path names: the root for "/", else the walk of its
/// components from the root.
pub open spec fn lookup_spec(st: Store, d: usize, p: Seq<u8>) -> Option<(Result<u32, ()>, Store)> {
    if p == "/".spec_bytes() {
        Some((Ok(ROOT_INODE), st))
    } else {
        walk_spec(st, d, p, path_ranges(p), 0, ROOT_INODE)
    }
}

/// Walks components `from..to` of `p` from directory `start`.
pub fn walk_components(
    storage: &mut Storage,
    device: usize,
    p: &[u8],
    ranges: &Vec<(usize, usize)>,
    to: usize,
    start: u32,
) -> (r: Result<u32, ()>)
    requires
        old(storage).wf(),
        to <= ranges@.len(),
        ranges_valid(p@, ranges_view(ranges@)),
        walk_spec(old(storage).store(), device, p@, ranges_view(ranges@).take(to as int), 0, start) is Some,
    ensures
        final(storage).wf(),
        walk_spec(old(storage).store(), device, p@, ranges_view(ranges@).take(to as int), 0, start) == Some((r, final(storage).store())),
{
    let ghost rs = ranges_view(ranges@).take(to as int);
    let mut current_inode = start;
    let mut k: usize = 0;
    while k < to
        invariant
            to <= ranges@.len(),
            rs == ranges_view(ranges@).take(to as int),
            ranges_valid(p@, ranges_view(ranges@)),
            k <= to,
            storage.wf(),
            walk_spec(storage.store(), device, p@, rs, k as int, current_inode) == walk_spec(
                old(storage).store(),
                device,
                p@,
                rs,
                0,
                start,
            ),
            walk_spec(old(storage).store(), device, p@, rs, 0, start) is Some,
        decreases to - k,
    {
        let (a, b) = ranges[k];
        proof {
            assert(ranges_view(ranges@)[k as int] == (a as int, b as int));
            assert(rs[k as int] == (a as int, b as int));
        }
        let part = &p[a..b];
        current_inode = match find_in_directory(storage, device, current_inode, part) {
            Ok(n) => n,
            Err(e) => {
                return Err(e);
            },
        };
        k += 1;
    }
    Ok(current_inode)
}

/// Finds the inode a path names (see `lookup_spec`).
pub fn lookup(storage: &mut Storage, device: usize, path: &str) -> (r: Result<u32, ()>)
    requires
        old(storage).wf(),
        lookup_spec(old(storage).store(), device, path.spec_bytes()) is Some,
    ensures
        final(storage).wf(),
        lookup_spec(old(storage).store(), device, path.spec_bytes()) == Some((r, final(storage).store())),
{
    if str_eq(path, "/") {
        return Ok(ROOT_INODE);
    }
    let p = path.as_bytes();
    let parts = split_path(p);
    proof {
        assert(ranges_view(parts@).take(parts@.len() as int) =~= ranges_view(parts@));
    }
    walk_components(storage, device, p, &parts, parts.len(), ROOT_INODE)
}

/// The entries of the directory a path names, read through the cache.
pub open spec fn read_directory_spec(st: Store, d: usize, p: Seq<u8>) -> Option<(Result<Seq<(Seq<u8>, u32)>, ()>, Store)> {
    match lookup_spec(st, d, p) {
        None => None,
        Some((Err(e), st1)) => Some((Err(e), st1)),
        Some((Ok(n), st1)) => match read_inode_spec(st1, d, n) {
            None => None,
            Some((Err(e), st2)) => Some((Err(e), st2)),
            Some((Ok(x), st2)) => match read_inode_data_spec(st2, d, x) {
                None => None,
                Some((Err(e), st3)) => Some((Err(e), st3)),
                Some((Ok(data), st3)) => if data.len() + 65536 > usize::MAX {
                    None
                } else {
                    Some((Ok(dir_list(data, 0)), st3))
                },
            },
        },
    }
}

/// Lists the directory a path names (see `read_directory_spec`).
pub fn read_directory(storage: &mut Storage, device: usize, path: &str) -> (r: Result<Vec<DirEntry>, ()>)
    requires
        old(storage).wf(),
        read_directory_spec(old(storage).store(), device, path.spec_bytes()) is Some,
    ensures
        final(storage).wf(),
        match read_directory_spec(old(storage).store(), device, path.spec_bytes()) {
            Some((Ok(list), st)) => st == final(storage).store() && (r matches Ok(v) && v@.len() == list.len()
                && forall|k: int| 0 <= k < v@.len() ==> dir_entry_is(#[trigger] v@[k], list[k].0, list[k].1)),
            Some((Err(e), st)) => st == final(storage).store() && r == Err::<Vec<DirEntry>, ()>(e),
            None => false,
        },
{
    let inode_num = match lookup(storage, device, path) {
        Ok(n) => n,
        Err(e) => {
            return Err(e);
        },
    };
    let inode_data = match read_inode(storage, device, inode_num) {
        Ok(i) => i,
        Err(e) => {
            return Err(e);
        },
    };
    let data = match read_inode_data(storage, device, &inode_data) {
        Ok(d) => d,
        Err(e) => {
            return Err(e);
        },
    };
    Ok(list_entries(data.as_slice()))
}

/// The record length of an entry with a name of `nl` bytes: eight header
/// bytes and the name, rounded up to a multiple of four.
pub open spec fn rec_len_of(nl: int) -> int {
    ((8 + nl + 3) / 4) * 4
}

/// The bytes of a new directory record: inode, record length, name length
/// and type, the name, then zeros up to the record length.
pub open spec fn entry_bytes(ino: u32, name: Seq<u8>, file_type: u8) -> Seq<u8> {
    let rl = rec_len_of(name.len() as int);
    spec_u32_to_le_bytes(ino) + spec_u16_to_le_bytes(rl as u16) + seq![name.len() as u8, file_type] + name
        + zeros((rl - 8 - name.len()) as nat)
}

/// Appends a directory record for `name` to `data`.
pub fn append_entry(data: &mut Vec<u8>, name: &[u8], inode: u32, file_type: u8)
    requires
        old(data)@.len() + rec_len_of(name@.len() as int) <= usize::MAX,
        name@.len() + 11 <= usize::MAX,
    ensures
        final(data)@ == old(data)@ + entry_bytes(inode, name@, file_type),
{
    let name_len = name.len();
    let rec_len = ((8 + name_len + 3) / 4) * 4;
    let ghost before = data@;
    let mut a = u32_to_le_bytes(inode);
    data.append(&mut a);
    let mut b = u16_to_le_bytes(rec_len as u16);
    data.append(&mut b);
    data.push(name_len as u8);
    data.push(file_type);
    let mut i: usize = 0;
    while i < name_len
        invariant
            i <= name_len,
            name_len == name@.len(),
            data@ == before + spec_u32_to_le_bytes(inode) + spec_u16_to_le_bytes(rec_len as u16)
                + seq![name_len as u8, file_type] + name@.subrange(0, i as int),
        decreases name_len - i,
    {
        data.push(name[i]);
        i += 1;
        proof {
            assert(data@ =~= before + spec_u32_to_le_bytes(inode) + spec_u16_to_le_bytes(rec_len as u16)
                + seq![name_len as u8, file_type] + name@.subrange(0, i as int));
        }
    }
    let pad = rec_len - 8 - name_len;
    let ghost mid = data@;
    let mut k: usize = 0;
    while k < pad
        invariant
            k <= pad,
            data@ == mid + zeros(k as nat),
        decreases pad - k,
    {
        data.push(0);
        k += 1;
        proof {
            assert(data@ =~= mid + zeros(k as nat));
        }
    }
    proof {
        assert(name@.subrange(0, name_len as int) =~= name@);
        assert(data@ =~= before + entry_bytes(inode, name@, file_type));
    }
}

/// Adding an entry to directory `dir`: its bytes get the new record, its
/// size grows to match, then data and inode are written back.
pub open spec fn add_entry_spec(st: Store, d: usize, dir: u32, name: Seq<u8>, ino: u32, file_type: u8) -> Option<(Result<(), ()>, Store)> {
    match read_inode_spec(st, d, dir) {
        None => None,
        Some((Err(e), st1)) => Some((Err(e), st1)),
        Some((Ok(x), st1)) => match read_inode_data_spec(st1, d, x) {
            None => None,
            Some((Err(e), st2)) => Some((Err(e), st2)),
            Some((Ok(data), st2)) => if name.len() + 11 > usize::MAX || data.len() + rec_len_of(name.len() as int) > usize::MAX {
                None
            } else {
                let data2 = data + entry_bytes(ino, name, file_type);
                let x2 = InodeView { size: data2.len() as u32, ..x };
                match write_inode_data_spec(st2, d, x2, data2) {
                    None => None,
                    Some((Err(e), st3)) => Some((Err(e), st3)),
                    Some((Ok(()), st3)) => write_inode_spec(st3, d, dir, x2),
                }
            },
        },
    }
}

/// Adds a record for `name` to directory `dir_inode` (see `add_entry_spec`).
pub fn add_entry_bytes(storage: &mut Storage, device: usize, dir_inode: u32, name: &[u8], inode: u32, file_type: u8) -> (r: Result<(), ()>)
    requires
        old(storage).wf(),
        add_entry_spec(old(storage).store(), device, dir_inode, name@, inode, file_type) is Some,
    ensures
        final(storage).wf(),
        add_entry_spec(old(storage).store(), device, dir_inode, name@, inode, file_type) == Some((r, final(storage).store())),
{
    let mut inode_data = match read_inode(storage, device, dir_inode) {
        Ok(i) => i,
        Err(e) => {
            return Err(e);
        },
    };
    let mut data = match read_inode_data(storage, device, &inode_data) {
        Ok(d) => d,
        Err(e) => {
            return Err(e);
        },
    };
    let ghost x = inode_data@;
    append_entry(&mut data, name, inode, file_type);
    inode_data.size = data.len() as u32;
    assert(inode_data@ == InodeView { size: data@.len() as u32, ..x });
    match write_inode_data(storage, device, &inode_data, data.as_slice()) {
        Ok(()) => {},
        Err(e) => {
            return Err(e);
        },
    }
    match write_inode(storage, device, dir_inode, &inode_data) {
        Ok(()) => Ok(()),
        Err(e) => Err(e),
    }
}

/// Adds a record for `name` to directory `dir_inode`.
pub fn add_entry(storage: &mut Storage, device: usize, dir_inode: u32, name: &str, inode: u32, file_type: u8) -> (r: Result<(), ()>)
    requires
        old(storage).wf(),
        add_entry_spec(old(storage).store(), device, dir_inode, name.spec_bytes(), inode, file_type) is Some,
    ensures
        final(storage).wf(),
        add_entry_spec(old(storage).store(), device, dir_inode, name.spec_bytes(), inode, file_type) == Some((r, final(storage).store())),
{
    add_entry_bytes(storage, device, dir_inode, name.as_bytes(), inode, file_type)
}

/// The records of `data` from `off` chain exactly to its end: each has a
/// nonzero inode and length, a name inside the data that is not `name`, and
/// the next record starts where its length says.
pub open spec fn chains_without(data: Seq<u8>, name: Seq<u8>, off: int) -> bool
    decreases dist(data.len() as int, off),
{
    if off == data.len() {
        true
    } else if off < 0 || off + 8 > data.len() {
        false
    } else {
        let ino = wire_u32(data, off);
        let rec = wire_u16(data, off + 4) as int;
        let nl = data[off + 6] as int;
        &&& ino != 0
        &&& rec != 0
        &&& off + 8 + nl <= data.len()
        &&& !(nl > 0 && data.subrange(off + 8, off + 8 + nl) == name)
        &&& chains_without(data, name, off + rec)
    }
}

/// Bytes past a prefix read the same within it.
proof fn lemma_prefix_reads(data: Seq<u8>, e: Seq<u8>, off: int, len: int)
    requires
        0 <= off,
        off + len <= data.len(),
        0 <= len,
    ensures
        (data + e).subrange(off, off + len) == data.subrange(off, off + len),
{
    assert((data + e).subrange(off, off + len) =~= data.subrange(off, off + len));
}

/// A name added to a directory is found there: when the directory's records
/// chain to its end without an entry of that name, the search through the
/// directory with the new record appended finds the new record's inode.
pub proof fn lemma_add_then_find(data: Seq<u8>, name: Seq<u8>, ino: u32, file_type: u8, off: int)
    requires
        1 <= name.len() <= 255,
        ino != 0,
        0 <= off <= data.len(),
        chains_without(data, name, off),
    ensures
        dir_find(data + entry_bytes(ino, name, file_type), name, off) == Some(ino),
    decreases dist(data.len() as int, off),
{
    let e = entry_bytes(ino, name, file_type);
    let all = data + e;
    let rl = rec_len_of(name.len() as int);
    assert(rl >= 8 + name.len()) by {
        assert(((8 + name.len() + 3) / 4) * 4 >= 8 + name.len());
    }
    vstd::bytes::lemma_auto_spec_u32_to_from_le_bytes();
    vstd::bytes::lemma_auto_spec_u16_to_from_le_bytes();
    assert(e.len() == rl);
    if off == data.len() {
        assert(all.subrange(off, off + 4) =~= spec_u32_to_le_bytes(ino));
        assert(all.subrange(off + 4, off + 6) =~= spec_u16_to_le_bytes(rl as u16));
        assert(all[off + 6] == name.len() as u8);
        assert(all.subrange(off + 8, off + 8 + name.len()) =~= name);
        assert(rl < 0x10000);
    } else {
        lemma_prefix_reads(data, e, off, 4);
        lemma_prefix_reads(data, e, off + 4, 2);
        let nl = data[off + 6] as int;
        lemma_prefix_reads(data, e, off + 8, nl);
        assert(all[off + 6] == data[off + 6]);
        let rec = wire_u16(data, off + 4) as int;
        assert(chains_without(data, name, off + rec));
        assert(off + rec <= data.len()) by {
            if off + rec > data.len() {
                assert(!chains_without(data, name, off + rec));
            }
        }
        lemma_add_then_find(data, name, ino, file_type, off + rec);
    }
}

/// Looking a name up in a directory never shrinks the cache; without
/// evicting it keeps every view.
pub proof fn lemma_find_kept(st: Store, d: usize, dir: u32, name: Seq<u8>)
    requires
        find_spec(st, d, dir, name) is Some,
    ensures
        find_spec(st, d, dir, name) matches Some((_, st1)) && st.0.len() <= st1.0.len()
            && (crate::fs::store::in_range(st) ==> crate::fs::store::in_range(st1))
            && (coherent(st) && st1.0.len() < CACHE_SIZE ==> kept(st, st1)),
{
    lemma_read_inode_kept(st, d, dir);
    match read_inode_spec(st, d, dir) {
        Some((Ok(x), st1)) => {
            lemma_read_data_kept(st1, d, x);
            let (_, st2) = read_inode_data_spec(st1, d, x)->0;
            if coherent(st) && st2.0.len() < CACHE_SIZE {
                lemma_kept_trans(st, st1, st2);
            }
        },
        _ => {},
    }
}

/// Walking a path never shrinks the cache; without evicting it keeps every
/// view.
pub proof fn lemma_walk_kept(st: Store, d: usize, p: Seq<u8>, rs: Seq<(int, int)>, k: int, cur: u32)
    requires
        walk_spec(st, d, p, rs, k, cur) is Some,
    ensures
        walk_spec(st, d, p, rs, k, cur) matches Some((_, st1)) && st.0.len() <= st1.0.len()
            && (crate::fs::store::in_range(st) ==> crate::fs::store::in_range(st1))
            && (coherent(st) && st1.0.len() < CACHE_SIZE ==> kept(st, st1)),
    decreases rs.len() - k,
{
    if coherent(st) {
        lemma_kept_refl(st);
    }
    if 0 <= k < rs.len() {
        let name = p.subrange(rs[k].0, rs[k].1);
        lemma_find_kept(st, d, cur, name);
        match find_spec(st, d, cur, name) {
            Some((Ok(n), st1)) => {
                lemma_walk_kept(st1, d, p, rs, k + 1, n);
                let (_, st2) = walk_spec(st1, d, p, rs, k + 1, n)->0;
                if coherent(st) && st2.0.len() < CACHE_SIZE {
                    lemma_kept_trans(st, st1, st2);
                }
            },
            _ => {},
        }
    }
}

/// Looking a path up never shrinks the cache; without evicting it keeps
/// every view.
pub proof fn lemma_lookup_kept(st: Store, d: usize, p: Seq<u8>)
    requires
        lookup_spec(st, d, p) is Some,
    ensures
        lookup_spec(st, d, p) matches Some((_, st1)) && st.0.len() <= st1.0.len()
            && (crate::fs::store::in_range(st) ==> crate::fs::store::in_range(st1))
            && (coherent(st) && st1.0.len() < CACHE_SIZE ==> kept(st, st1)),
{
    if coherent(st) {
        lemma_kept_refl(st);
    }
    if p != "/".spec_bytes() {
        lemma_walk_kept(st, d, p, path_ranges(p), 0, ROOT_INODE);
    }
}

} // verus!
