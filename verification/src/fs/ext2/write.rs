use vstd::prelude::*;
use vstd::string::StringSliceAdditionalSpecFns;
use crate::fs::ext2::bitmap::{allocate_block, allocate_inode, allocate_spec, free_inode, free_inode_spec};
use crate::fs::ext2::block::{
    chunk, direct_blocks, in_blocks, lemma_read_blocks_kept, lemma_read_data_kept, lemma_write_blocks_kept, write_inode_data,
    write_inode_data_spec, read_inode_data_spec,
};
use crate::fs::ext2::directory::{
    ROOT_INODE, chains_without, dir_find, entry_bytes, find_spec, lemma_add_then_find, lemma_lookup_kept, add_entry_bytes, add_entry_spec, lookup, lookup_spec, path_ranges, ranges_valid, ranges_view,
    split_path, walk_components, walk_spec, ranges_acc, SLASH, lemma_walk_kept,
};
use crate::fs::ext2::inode::{
    Inode, InodeView, bgd_sector_by_views, ino_parse, ino_put, lemma_inode_roundtrip, lemma_read_inode_kept,
    lemma_write_inode_views, location_by_views, read_inode, read_inode_spec, sectors_whole, write_inode, write_inode_spec,
};
use crate::fs::ext2::layout::zeros;
use crate::fs::ext2::read::{MODE_DIR, read_file_spec};
use crate::fs::ext2::stat_spec;
use crate::fs::FileStat;
use crate::fs::ext2::superblock::SUPERBLOCK_SECTOR;
use crate::fs::cache::CACHE_SIZE;
use crate::fs::store::{Storage, Store, coherent, in_range, kept, lemma_kept_trans, st_read, view_of};
use crate::util::{zero_bytes, zero_words};

verus! {

/// Blocks a file of `size` bytes takes.
pub open spec fn blocks_of(size: int) -> int {
    (size + 1023) / 1024
}

/// Giving the file blocks `current + i ..` of `count` new blocks, each
/// from the block bitmap; only the twelve direct pointers can be filled.
pub open spec fn alloc_blocks_from(st: Store, d: usize, x: InodeView, current: int, i: int, count: int) -> Option<(Result<(), ()>, InodeView, Store)>
    decreases count - i,
{
    if i >= count || i < 0 {
        Some((Ok(()), x, st))
    } else if current + i >= 12 {
        Some((Err(()), x, st))
    } else {
        match allocate_spec(st, d, false) {
            None => None,
            Some((Err(e), st1)) => Some((Err(e), x, st1)),
            Some((Ok(b), st1)) => alloc_blocks_from(
                st1,
                d,
                InodeView { block: x.block.update(current + i, b), ..x },
                current,
                i + 1,
                count,
            ),
        }
    }
}

/// Giving a file `count` more blocks after those its size covers; `None`
/// when that block count overflows.
pub open spec fn allocate_blocks_spec(st: Store, d: usize, x: InodeView, count: int) -> Option<(Result<(), ()>, InodeView, Store)> {
    if x.size + 1023 > u32::MAX {
        None
    } else {
        alloc_blocks_from(st, d, x, blocks_of(x.size as int), 0, count)
    }
}

/// Gives the file `count` more direct blocks (see `allocate_blocks_spec`).
fn allocate_blocks(storage: &mut Storage, device: usize, inode: &mut Inode, count: usize) -> (r: Result<(), ()>)
    requires
        old(storage).wf(),
        old(inode)@.block.len() == 15,
        allocate_blocks_spec(old(storage).store(), device, old(inode)@, count as int) is Some,
    ensures
        final(storage).wf(),
        allocate_blocks_spec(old(storage).store(), device, old(inode)@, count as int) == Some((r, final(inode)@, final(storage).store())),
        final(inode)@.block.len() == 15,
{
    let current = ((inode.size + 1023) / 1024) as usize;
    let mut i: usize = 0;
    while i < count
        invariant
            current == blocks_of(old(inode)@.size as int),
            current <= 0x400000,
            i <= count,
            i == 0 || current + i <= 12,
            storage.wf(),
            inode@.block.len() == 15,
            inode.size == old(inode).size,
            alloc_blocks_from(storage.store(), device, inode@, current as int, i as int, count as int)
                == allocate_blocks_spec(old(storage).store(), device, old(inode)@, count as int),
            allocate_blocks_spec(old(storage).store(), device, old(inode)@, count as int) is Some,
        decreases count - i,
    {
        let block_index = current + i;
        if block_index < 12 {
            let b = match allocate_block(storage, device) {
                Ok(b) => b,
                Err(e) => {
                    return Err(e);
                },
            };
            let ghost before = inode@;
            inode.block[block_index] = b;
            proof {
                assert(inode@ == InodeView { block: before.block.update(block_index as int, b), ..before });
            }
        } else {
            return Err(());
        }
        i += 1;
    }
    Ok(())
}

/// Writing `data` over the file a path names: an error for a directory;
/// else the file gets more direct blocks when it grows, its size becomes
/// the data's length, and its data and inode are written.
pub open spec fn write_file_spec(st: Store, d: usize, p: Seq<u8>, data: Seq<u8>) -> Option<(Result<(), ()>, Store)> {
    match lookup_spec(st, d, p) {
        None => None,
        Some((Err(e), st1)) => Some((Err(e), st1)),
        Some((Ok(n), st1)) => match read_inode_spec(st1, d, n) {
            None => None,
            Some((Err(e), st2)) => Some((Err(e), st2)),
            Some((Ok(x), st2)) => if x.mode & MODE_DIR != 0 {
                Some((Err(()), st2))
            } else if data.len() + 1023 > usize::MAX || x.size + 1023 > u32::MAX {
                None
            } else {
                let needed = blocks_of(data.len() as int);
                let current = blocks_of(x.size as int);
                let grown = if needed > current {
                    allocate_blocks_spec(st2, d, x, needed - current)
                } else {
                    Some((Ok(()), x, st2))
                };
                match grown {
                    None => None,
                    Some((Err(e), _, st3)) => Some((Err(e), st3)),
                    Some((Ok(()), x3, st3)) => {
                        let x4 = InodeView { size: data.len() as u32, ..x3 };
                        match write_inode_data_spec(st3, d, x4, data) {
                            None => None,
                            Some((Err(e), st4)) => Some((Err(e), st4)),
                            Some((Ok(()), st4)) => write_inode_spec(st4, d, n, x4),
                        }
                    },
                }
            },
        },
    }
}

/// Writes `data` over the file a path names (see `write_file_spec`).
pub fn write_file(storage: &mut Storage, device: usize, path: &str, data: &[u8]) -> (r: Result<(), ()>)
    requires
        old(storage).wf(),
        write_file_spec(old(storage).store(), device, path.spec_bytes(), data@) is Some,
    ensures
        final(storage).wf(),
        write_file_spec(old(storage).store(), device, path.spec_bytes(), data@) == Some((r, final(storage).store())),
{
    let inode_num = match lookup(storage, device, path) {
        Ok(n) => n,
        Err(e) => {
            return Err(e);
        },
    };
    let mut inode_data = match read_inode(storage, device, inode_num) {
        Ok(i) => i,
        Err(e) => {
            return Err(e);
        },
    };
    if (inode_data.mode & MODE_DIR) != 0 {
        return Err(());
    }
    let blocks_needed = (data.len() + 1023) / 1024;
    let current_blocks = ((inode_data.size + 1023) / 1024) as usize;
    if blocks_needed > current_blocks {
        match allocate_blocks(storage, device, &mut inode_data, blocks_needed - current_blocks) {
            Ok(()) => {},
            Err(e) => {
                return Err(e);
            },
        }
    }
    let ghost x3 = inode_data@;
    inode_data.size = data.len() as u32;
    assert(inode_data@ == InodeView { size: data@.len() as u32, ..x3 });
    match write_inode_data(storage, device, &inode_data, data) {
        Ok(()) => {},
        Err(e) => {
            return Err(e);
        },
    }
    match write_inode(storage, device, inode_num, &inode_data) {
        Ok(()) => Ok(()),
        Err(e) => Err(e),
    }
}

/// A new file's inode: the given mode and owner, one link, nothing else.
pub open spec fn fresh_inode(mode: u16, uid: u32, gid: u32) -> InodeView {
    InodeView {
        mode,
        uid,
        size: 0,
        atime: 0,
        ctime: 0,
        mtime: 0,
        dtime: 0,
        gid,
        links_count: 1,
        blocks: 0,
        flags: 0,
        osd1: 0,
        block: Seq::new(15, |i: int| 0u32),
        generation: 0,
        file_acl: 0,
        dir_acl: 0,
        faddr: 0,
        osd2: zeros(12),
    }
}

/// Creating a file: the path needs a component; the parent is found by
/// walking the others, an inode is allocated and written fresh, and an
/// entry for the last component is added to the parent.
pub open spec fn create_file_spec(st: Store, d: usize, p: Seq<u8>, mode: u16, uid: u32, gid: u32) -> Option<(Result<(), ()>, Store)> {
    let rs = path_ranges(p);
    if rs.len() == 0 {
        Some((Err(()), st))
    } else {
        let name = p.subrange(rs.last().0, rs.last().1);
        match walk_spec(st, d, p, rs.take(rs.len() - 1), 0, ROOT_INODE) {
            None => None,
            Some((Err(e), st1)) => Some((Err(e), st1)),
            Some((Ok(parent), st1)) => match allocate_spec(st1, d, true) {
                None => None,
                Some((Err(e), st2)) => Some((Err(e), st2)),
                Some((Ok(n), st2)) => match write_inode_spec(st2, d, n, fresh_inode(mode, uid, gid)) {
                    None => None,
                    Some((Err(e), st3)) => Some((Err(e), st3)),
                    Some((Ok(()), st3)) => add_entry_spec(st3, d, parent, name, n, 1),
                },
            },
        }
    }
}

/// The inode written for a new file (see `fresh_inode`).
fn new_file_inode(mode: u16, uid: u32, gid: u32) -> (i: Inode)
    ensures
        i@ == fresh_inode(mode, uid, gid),
{
    let i = Inode {
        mode,
        uid,
        size: 0,
        atime: 0,
        ctime: 0,
        mtime: 0,
        dtime: 0,
        gid,
        links_count: 1,
        blocks: 0,
        flags: 0,
        osd1: 0,
        block: zero_words(),
        generation: 0,
        file_acl: 0,
        dir_acl: 0,
        faddr: 0,
        osd2: zero_bytes(),
    };
    assert(i.osd2@ =~= zeros(12));
    i
}

/// Creates a regular file (see `create_file_spec`).
#[verifier::spinoff_prover]
#[verifier::rlimit(40)]
pub fn create_file(storage: &mut Storage, device: usize, path: &str, mode: u16, uid: u32, gid: u32) -> (r: Result<(), ()>)
    requires
        old(storage).wf(),
        create_file_spec(old(storage).store(), device, path.spec_bytes(), mode, uid, gid) is Some,
    ensures
        final(storage).wf(),
        create_file_spec(old(storage).store(), device, path.spec_bytes(), mode, uid, gid) == Some((r, final(storage).store())),
{
    let p = path.as_bytes();
    let parts = split_path(p);
    if parts.len() == 0 {
        return Err(());
    }
    let (a, b) = parts[parts.len() - 1];
    proof {
        assert(ranges_view(parts@)[parts@.len() - 1] == (a as int, b as int));
    }
    let filename = &p[a..b];
    let parent_inode = match walk_components(storage, device, p, &parts, parts.len() - 1, ROOT_INODE) {
        Ok(n) => n,
        Err(e) => {
            return Err(e);
        },
    };
    let new_inode = match allocate_inode(storage, device) {
        Ok(n) => n,
        Err(e) => {
            return Err(e);
        },
    };
    let inode_data = new_file_inode(mode, uid, gid);
    match write_inode(storage, device, new_inode, &inode_data) {
        Ok(()) => {},
        Err(e) => {
            return Err(e);
        },
    }
    add_entry_bytes(storage, device, parent_inode, filename, new_inode, 1)
}

/// Deleting a file: its inode is freed (its directory entry stays).
pub open spec fn delete_file_spec(st: Store, d: usize, p: Seq<u8>) -> Option<(Result<(), ()>, Store)> {
    match lookup_spec(st, d, p) {
        None => None,
        Some((Err(e), st1)) => Some((Err(e), st1)),
        Some((Ok(n), st1)) => free_inode_spec(st1, d, n),
    }
}

/// Deletes the file a path names (see `delete_file_spec`).
pub fn delete_file(storage: &mut Storage, device: usize, path: &str) -> (r: Result<(), ()>)
    requires
        old(storage).wf(),
        delete_file_spec(old(storage).store(), device, path.spec_bytes()) is Some,
    ensures
        final(storage).wf(),
        delete_file_spec(old(storage).store(), device, path.spec_bytes()) == Some((r, final(storage).store())),
{
    let inode_num = match lookup(storage, device, path) {
        Ok(n) => n,
        Err(e) => {
            return Err(e);
        },
    };
    free_inode(storage, device, inode_num)
}

/// The file's inode sits in a sector of its own, apart from the superblock
/// and its group descriptor, and its first `nb` blocks hold none of these
/// three sectors.
pub open spec fn file_apart(st: Store, d: usize, n: u32, x: InodeView, nb: int) -> bool {
    match (location_by_views(st, d, n), bgd_sector_by_views(st, d, n)) {
        (Some((sec, _)), Some(bsec)) => {
            &&& sec != SUPERBLOCK_SECTOR
            &&& sec != bsec
            &&& !in_blocks(x, 0, nb, sec)
            &&& !in_blocks(x, 0, nb, SUPERBLOCK_SECTOR)
            &&& !in_blocks(x, 0, nb, bsec)
        },
        _ => false,
    }
}

/// Writing an inode never shrinks the cache and keeps the cache index
/// inside its entries.
proof fn lemma_write_inode_grows(st: Store, d: usize, n: u32, v: InodeView)
    requires
        in_range(st),
        write_inode_spec(st, d, n, v) is Some,
    ensures
        write_inode_spec(st, d, n, v) matches Some((_, st1)) && st.0.len() <= st1.0.len() && in_range(st1),
{
    let (sec, off, s2) = crate::fs::ext2::inode::inode_location(st, d, n)->0;
    crate::fs::ext2::inode::lemma_location_kept(st, d, n);
    if st_read(s2, d, sec) is Some {
        let (b, s3) = st_read(s2, d, sec)->0;
        crate::fs::store::lemma_read_step(s2, d, sec);
        crate::fs::store::lemma_write_grows(s3, d, sec, ino_put(b, off, v));
    }
}

/// Reading a file never shrinks the cache; without evicting it keeps every
/// view.
proof fn lemma_read_file_grows(st: Store, d: usize, p: Seq<u8>)
    requires
        read_file_spec(st, d, p) is Some,
    ensures
        read_file_spec(st, d, p) matches Some((_, st1)) && st.0.len() <= st1.0.len(),
{
    lemma_lookup_kept(st, d, p);
    match lookup_spec(st, d, p) {
        Some((Ok(n), st1)) => {
            lemma_read_inode_kept(st1, d, n);
            match read_inode_spec(st1, d, n) {
                Some((Ok(x), st2)) => {
                    if x.mode & MODE_DIR == 0 {
                        lemma_read_data_kept(st2, d, x);
                    }
                },
                _ => {},
            }
        },
        _ => {},
    }
}

/// The hypotheses of the file round trip.
pub open spec fn round_trip_case(st: Store, d: usize, p: Seq<u8>, data: Seq<u8>) -> bool {
    &&& coherent(st)
    &&& sectors_whole(st, d)
    &&& data.len() <= 12 * 1024
    &&& write_file_spec(st, d, p, data) matches Some((Ok(()), _))
    &&& lookup_spec(st, d, p) matches Some((Ok(n), st1)) && (read_inode_spec(st1, d, n) matches Some((Ok(x), _))
        && blocks_of(data.len() as int) <= blocks_of(x.size as int)
        && direct_blocks(x, blocks_of(data.len() as int))
        && file_apart(st, d, n, x, blocks_of(data.len() as int)))
}

/// The write side of the round trip: without evicting, the inode's sector
/// holds the new inode (the old one with the data's size), the data
/// sectors hold the data's chunks, and the superblock and group descriptor
/// read as before.
proof fn lemma_write_side(st: Store, d: usize, p: Seq<u8>, data: Seq<u8>)
    requires
        round_trip_case(st, d, p, data),
        write_file_spec(st, d, p, data) matches Some((_, st4)) && st4.0.len() < CACHE_SIZE,
    ensures
        write_file_spec(st, d, p, data) matches Some((_, st4)) && (lookup_spec(st, d, p) matches Some((Ok(n), st1))
            && (read_inode_spec(st1, d, n) matches Some((Ok(x), _)) && {
            let x4 = InodeView { size: data.len() as u32, ..x };
            let nb = blocks_of(data.len() as int);
            &&& coherent(st4)
            &&& x.mode & MODE_DIR == 0
            &&& location_by_views(st4, d, n) == location_by_views(st, d, n)
            &&& location_by_views(st, d, n) matches Some((sec, off)) && (view_of(st, d, sec) matches Some(b)
                && view_of(st4, d, sec) == Some(ino_put(b, off, x4)) && b.len() == 512 && 0 <= off && off + 136 <= 512
                && x == ino_parse(b, off)
                && forall|j: int, k: int| 0 <= j < nb && 0 <= k < 2 ==> view_of(st4, d, (x.block[j] * 2 + k) as u64)
                    == Some(#[trigger] chunk(data, j, k)))
        })),
{
    let len = data.len() as int;
    let nb = blocks_of(len);
    let (_, st4) = write_file_spec(st, d, p, data)->0;
    let (rn, st1) = lookup_spec(st, d, p)->0;
    let n = rn->Ok_0;
    let (rx, st2) = read_inode_spec(st1, d, n)->0;
    let x = rx->Ok_0;
    let x4 = InodeView { size: data.len() as u32, ..x };
    assert(direct_blocks(x4, nb));
    let (_, st3) = write_inode_data_spec(st2, d, x4, data)->0;
    lemma_lookup_kept(st, d, p);
    lemma_read_inode_kept(st1, d, n);
    lemma_write_blocks_kept(st2, d, x4, data, 0, nb);
    lemma_write_inode_grows(st3, d, n, x4);
    lemma_kept_trans(st, st1, st2);
    lemma_write_inode_views(st3, d, n, x4);
    let (sec, off) = location_by_views(st, d, n)->0;
    let bsec = bgd_sector_by_views(st, d, n)->0;
    let b = view_of(st, d, sec)->0;
    assert(view_of(st1, d, SUPERBLOCK_SECTOR) == view_of(st, d, SUPERBLOCK_SECTOR));
    assert(view_of(st1, d, bsec) == view_of(st, d, bsec));
    assert(location_by_views(st1, d, n) == Some((sec, off)));
    assert(view_of(st1, d, sec) == view_of(st, d, sec));
    assert(view_of(st3, d, SUPERBLOCK_SECTOR) == view_of(st2, d, SUPERBLOCK_SECTOR));
    assert(view_of(st3, d, bsec) == view_of(st2, d, bsec));
    assert(view_of(st3, d, sec) == view_of(st2, d, sec));
    assert(view_of(st2, d, SUPERBLOCK_SECTOR) == view_of(st, d, SUPERBLOCK_SECTOR));
    assert(view_of(st2, d, bsec) == view_of(st, d, bsec));
    assert(view_of(st2, d, sec) == view_of(st, d, sec));
    assert(location_by_views(st3, d, n) == Some((sec, off)));
    assert(view_of(st4, d, SUPERBLOCK_SECTOR) == view_of(st3, d, SUPERBLOCK_SECTOR));
    assert(view_of(st4, d, bsec) == view_of(st3, d, bsec));
    assert(location_by_views(st4, d, n) == Some((sec, off)));
    assert forall|j: int, k: int| 0 <= j < nb && 0 <= k < 2 implies view_of(st4, d, (x.block[j] * 2 + k) as u64)
        == Some(#[trigger] chunk(data, j, k)) by {
        let sj = (x4.block[j] * 2 + k) as u64;
        assert(in_blocks(x4, 0, nb, sj));
        assert(sj != sec);
        assert(view_of(st4, d, sj) == view_of(st3, d, sj));
    }
}

/// The read side of the round trip: a store whose inode sector holds the
/// inode (not a directory, of the data's size) and whose data sectors hold
/// the data's chunks reads the file back as the data, when nothing evicts.
proof fn lemma_read_side(st4: Store, d: usize, p: Seq<u8>, data: Seq<u8>, n: u32, x4: InodeView, sec: u64, off: int, b: Seq<u8>)
    requires
        coherent(st4),
        data.len() <= 12 * 1024,
        x4.size == data.len(),
        x4.mode & MODE_DIR == 0,
        x4.osd2.len() == 12,
        direct_blocks(x4, blocks_of(data.len() as int)),
        location_by_views(st4, d, n) == Some((sec, off)),
        b.len() == 512,
        0 <= off,
        off + 136 <= 512,
        view_of(st4, d, sec) == Some(ino_put(b, off, x4)),
        forall|j: int, k: int| 0 <= j < blocks_of(data.len() as int) && 0 <= k < 2 ==> view_of(st4, d, (x4.block[j] * 2 + k) as u64)
            == Some(#[trigger] chunk(data, j, k)),
        lookup_spec(st4, d, p) matches Some((Ok(m), _)) && m == n,
        read_file_spec(st4, d, p) matches Some((_, st6)) && st6.0.len() < CACHE_SIZE,
    ensures
        read_file_spec(st4, d, p) matches Some((Ok(r), _)) && r == data,
{
    let nb = blocks_of(data.len() as int);
    let (_, st5) = lookup_spec(st4, d, p)->0;
    lemma_lookup_kept(st4, d, p);
    lemma_read_inode_kept(st5, d, n);
    let (ry, st5b) = read_inode_spec(st5, d, n)->0;
    match ry {
        Ok(y) => {
            if y.mode & MODE_DIR == 0 {
                lemma_read_data_kept(st5b, d, y);
            }
        },
        Err(_) => {},
    }
    assert(st5b.0.len() < CACHE_SIZE);
    assert(view_of(st5, d, SUPERBLOCK_SECTOR) == view_of(st4, d, SUPERBLOCK_SECTOR));
    let bsec = bgd_sector_by_views(st4, d, n);
    if bsec is Some {
        assert(view_of(st5, d, bsec->0) == view_of(st4, d, bsec->0));
    }
    assert(location_by_views(st5, d, n) == location_by_views(st4, d, n));
    assert(view_of(st5, d, sec) == view_of(st4, d, sec));
    lemma_inode_roundtrip(b, off, x4);
    assert(ry == Ok::<InodeView, ()>(x4));
    lemma_read_data_kept(st5b, d, x4);
    assert forall|j: int, k: int| 0 <= j < nb && 0 <= k < 2 implies view_of(st5b, d, (x4.block[j] * 2 + k) as u64)
        == Some(#[trigger] chunk(data, j, k)) by {
        let sj = (x4.block[j] * 2 + k) as u64;
        assert(view_of(st5b, d, sj) == view_of(st5, d, sj));
        assert(view_of(st5, d, sj) == view_of(st4, d, sj));
    }
    assert(data.subrange(0, 0) =~= Seq::<u8>::empty());
    lemma_read_blocks_kept(st5b, d, x4, data, 0, nb);
}

/// What is written to a file reads back: after `data` is written over the
/// file a path names, reading the file gives `data`. This holds when the
/// file keeps its blocks (its direct blocks, set and distinct, already
/// cover the data), its inode's sector and blocks stay apart from the
/// superblock, its group descriptor and each other, the path still names
/// the same file afterwards, the device's sectors are whole, and the cache
/// does not fill (its index names the entry of each sector it holds, and
/// no read or write evicts).
pub proof fn lemma_file_write_then_read(st: Store, d: usize, p: Seq<u8>, data: Seq<u8>)
    requires
        round_trip_case(st, d, p, data),
        write_file_spec(st, d, p, data) matches Some((_, st4))
            && (read_file_spec(st4, d, p) matches Some((_, st6)) && st6.0.len() < CACHE_SIZE)
            && (lookup_spec(st4, d, p) matches Some((Ok(m), _)) && (lookup_spec(st, d, p) matches Some((Ok(n), _)) && m == n)),
    ensures
        write_file_spec(st, d, p, data) matches Some((_, st4)) && (read_file_spec(st4, d, p) matches Some((Ok(r), _)) && r == data),
{
    let (_, st4) = write_file_spec(st, d, p, data)->0;
    lemma_read_file_grows(st4, d, p);
    lemma_write_side(st, d, p, data);
    let (rn, st1) = lookup_spec(st, d, p)->0;
    let n = rn->Ok_0;
    let (rx, _) = read_inode_spec(st1, d, n)->0;
    let x = rx->Ok_0;
    let x4 = InodeView { size: data.len() as u32, ..x };
    let (sec, off) = location_by_views(st, d, n)->0;
    let b = view_of(st, d, sec)->0;
    assert(x.osd2.len() == 12);
    assert(direct_blocks(x4, blocks_of(data.len() as int)));
    lemma_read_side(st4, d, p, data, n, x4, sec, off, b);
}

/// The hypotheses of adding an entry and finding it: the directory's
/// records chain to its end without that name, the grown directory fits
/// its direct blocks, set and distinct, and its inode's sector and blocks
/// stay apart from the superblock, its group descriptor and each other.
pub open spec fn add_entry_case(st: Store, d: usize, dir: u32, name: Seq<u8>, ino: u32, ft: u8) -> bool {
    &&& coherent(st)
    &&& sectors_whole(st, d)
    &&& 1 <= name.len() <= 255
    &&& ino != 0
    &&& add_entry_spec(st, d, dir, name, ino, ft) matches Some((Ok(()), _))
    &&& read_inode_spec(st, d, dir) matches Some((Ok(x), s1)) && (read_inode_data_spec(s1, d, x) matches Some((Ok(data), _))
        && {
            let data2 = data + entry_bytes(ino, name, ft);
            let nb = blocks_of(data2.len() as int);
            &&& data2.len() <= 12 * 1024
            &&& chains_without(data, name, 0)
            &&& direct_blocks(x, nb)
            &&& file_apart(st, d, dir, x, nb)
        })
}

/// The write side of adding an entry: without evicting, the directory's
/// inode sector holds the grown inode and its data sectors the grown
/// data's chunks.
proof fn lemma_add_entry_side(st: Store, d: usize, dir: u32, name: Seq<u8>, ino: u32, ft: u8)
    requires
        add_entry_case(st, d, dir, name, ino, ft),
        add_entry_spec(st, d, dir, name, ino, ft) matches Some((_, s4)) && s4.0.len() < CACHE_SIZE,
    ensures
        add_entry_spec(st, d, dir, name, ino, ft) matches Some((_, s4)) && (read_inode_spec(st, d, dir) matches Some((Ok(x), s1))
            && (read_inode_data_spec(s1, d, x) matches Some((Ok(data), _)) && {
            let data2 = data + entry_bytes(ino, name, ft);
            let x2 = InodeView { size: data2.len() as u32, ..x };
            let nb = blocks_of(data2.len() as int);
            &&& coherent(s4)
            &&& s4.2 == st.2
            &&& st.0.len() <= s4.0.len()
            &&& location_by_views(s4, d, dir) == location_by_views(st, d, dir)
            &&& location_by_views(st, d, dir) matches Some((sec, off)) && (view_of(st, d, sec) matches Some(b)
                && view_of(s4, d, sec) == Some(ino_put(b, off, x2)) && b.len() == 512 && 0 <= off && off + 136 <= 512
                && x == ino_parse(b, off)
                && (forall|j: int, k: int| 0 <= j < nb && 0 <= k < 2 ==> view_of(s4, d, (x.block[j] * 2 + k) as u64)
                    == Some(#[trigger] chunk(data2, j, k)))
                && forall|s2: u64| s2 != sec && !in_blocks(x2, 0, nb, s2) ==> #[trigger] view_of(s4, d, s2) == view_of(st, d, s2))
        })),
{
    let (rx, s1) = read_inode_spec(st, d, dir)->0;
    let x = rx->Ok_0;
    let (rd, s2) = read_inode_data_spec(s1, d, x)->0;
    let data = rd->Ok_0;
    let data2 = data + entry_bytes(ino, name, ft);
    let x2 = InodeView { size: data2.len() as u32, ..x };
    let nb = blocks_of(data2.len() as int);
    assert(direct_blocks(x2, nb));
    let (_, s3) = write_inode_data_spec(s2, d, x2, data2)->0;
    let (_, s4) = add_entry_spec(st, d, dir, name, ino, ft)->0;
    lemma_read_inode_kept(st, d, dir);
    lemma_read_data_kept(s1, d, x);
    lemma_write_blocks_kept(s2, d, x2, data2, 0, nb);
    lemma_write_inode_grows(s3, d, dir, x2);
    lemma_kept_trans(st, s1, s2);
    lemma_write_inode_views(s3, d, dir, x2);
    let (sec, off) = location_by_views(st, d, dir)->0;
    let bsec = bgd_sector_by_views(st, d, dir)->0;
    assert(view_of(s2, d, SUPERBLOCK_SECTOR) == view_of(st, d, SUPERBLOCK_SECTOR));
    assert(view_of(s2, d, bsec) == view_of(st, d, bsec));
    assert(view_of(s2, d, sec) == view_of(st, d, sec));
    assert(view_of(s3, d, SUPERBLOCK_SECTOR) == view_of(s2, d, SUPERBLOCK_SECTOR));
    assert(view_of(s3, d, bsec) == view_of(s2, d, bsec));
    assert(view_of(s3, d, sec) == view_of(s2, d, sec));
    assert(location_by_views(s3, d, dir) == Some((sec, off)));
    assert(view_of(s4, d, SUPERBLOCK_SECTOR) == view_of(s3, d, SUPERBLOCK_SECTOR));
    assert(view_of(s4, d, bsec) == view_of(s3, d, bsec));
    assert(location_by_views(s4, d, dir) == Some((sec, off)));
    assert forall|j: int, k: int| 0 <= j < nb && 0 <= k < 2 implies view_of(s4, d, (x.block[j] * 2 + k) as u64)
        == Some(#[trigger] chunk(data2, j, k)) by {
        let sj = (x2.block[j] * 2 + k) as u64;
        assert(in_blocks(x2, 0, nb, sj));
        assert(sj != sec);
        assert(view_of(s4, d, sj) == view_of(s3, d, sj));
    }
}

/// The find side: a store whose directory inode sector holds the grown
/// inode and whose data sectors hold the grown data finds the name, when
/// nothing evicts.
proof fn lemma_find_side(s4: Store, d: usize, dir: u32, name: Seq<u8>, ino: u32, data: Seq<u8>, data2: Seq<u8>, x2: InodeView, sec: u64, off: int, b: Seq<u8>)
    requires
        coherent(s4),
        1 <= name.len() <= 255,
        ino != 0,
        chains_without(data, name, 0),
        data2 == data + entry_bytes(ino, name, 1u8) || exists|ft: u8| data2 == data + entry_bytes(ino, name, ft),
        data2.len() <= 12 * 1024,
        x2.size == data2.len(),
        x2.osd2.len() == 12,
        direct_blocks(x2, blocks_of(data2.len() as int)),
        location_by_views(s4, d, dir) == Some((sec, off)),
        b.len() == 512,
        0 <= off,
        off + 136 <= 512,
        view_of(s4, d, sec) == Some(ino_put(b, off, x2)),
        forall|j: int, k: int| 0 <= j < blocks_of(data2.len() as int) && 0 <= k < 2 ==> view_of(s4, d, (x2.block[j] * 2 + k) as u64)
            == Some(#[trigger] chunk(data2, j, k)),
        find_spec(s4, d, dir, name) matches Some((_, s6)) && s6.0.len() < CACHE_SIZE,
    ensures
        find_spec(s4, d, dir, name) matches Some((Ok(r), _)) && r == ino,
{
    let nb = blocks_of(data2.len() as int);
    lemma_read_inode_kept(s4, d, dir);
    let (ry, s5) = read_inode_spec(s4, d, dir)->0;
    match ry {
        Ok(y) => {
            lemma_read_data_kept(s5, d, y);
        },
        Err(_) => {},
    }
    assert(s5.0.len() < CACHE_SIZE);
    lemma_inode_roundtrip(b, off, x2);
    assert(ry == Ok::<InodeView, ()>(x2));
    assert forall|j: int, k: int| 0 <= j < nb && 0 <= k < 2 implies view_of(s5, d, (x2.block[j] * 2 + k) as u64)
        == Some(#[trigger] chunk(data2, j, k)) by {
        let sj = (x2.block[j] * 2 + k) as u64;
        assert(view_of(s5, d, sj) == view_of(s4, d, sj));
    }
    assert(data2.subrange(0, 0) =~= Seq::<u8>::empty());
    lemma_read_blocks_kept(s5, d, x2, data2, 0, nb);
    let ft = choose|ft: u8| data2 == data + entry_bytes(ino, name, ft);
    if data2 == data + entry_bytes(ino, name, 1u8) {
        lemma_add_then_find(data, name, ino, 1u8, 0);
    } else {
        lemma_add_then_find(data, name, ino, ft, 0);
    }
}

/// A name added to a directory is then found there: after `add_entry`
/// gives directory `dir` a record for `name` and inode `ino`, looking
/// `name` up in `dir` gives `ino`. This holds when the directory's records
/// chain to its end without that name, the grown directory fits its direct
/// blocks (set and distinct), its inode's sector and blocks stay apart from
/// the superblock, its group descriptor and each other, the device's
/// sectors are whole, and the cache does not fill.
pub proof fn lemma_add_entry_then_find(st: Store, d: usize, dir: u32, name: Seq<u8>, ino: u32, ft: u8)
    requires
        add_entry_case(st, d, dir, name, ino, ft),
        add_entry_spec(st, d, dir, name, ino, ft) matches Some((_, s4))
            && (find_spec(s4, d, dir, name) matches Some((_, s6)) && s6.0.len() < CACHE_SIZE),
    ensures
        add_entry_spec(st, d, dir, name, ino, ft) matches Some((_, s4))
            && (find_spec(s4, d, dir, name) matches Some((Ok(r), _)) && r == ino),
{
    let (_, s4) = add_entry_spec(st, d, dir, name, ino, ft)->0;
    crate::fs::ext2::directory::lemma_find_kept(s4, d, dir, name);
    lemma_add_entry_side(st, d, dir, name, ino, ft);
    let (rx, s1) = read_inode_spec(st, d, dir)->0;
    let x = rx->Ok_0;
    let (rd, _) = read_inode_data_spec(s1, d, x)->0;
    let data = rd->Ok_0;
    let data2 = data + entry_bytes(ino, name, ft);
    let x2 = InodeView { size: data2.len() as u32, ..x };
    let (sec, off) = location_by_views(st, d, dir)->0;
    let b = view_of(st, d, sec)->0;
    assert(x.osd2.len() == 12);
    assert(direct_blocks(x2, blocks_of(data2.len() as int)));
    assert(exists|f: u8| data2 == data + entry_bytes(ino, name, f));
    lemma_find_side(s4, d, dir, name, ino, data, data2, x2, sec, off, b);
}

/// The steps of creating `p` up to its entry: the parent directory that
/// the path leads to, the inode allocated for the file, the name, the
/// store once the inode is allocated and the store once it is written.
pub open spec fn create_before_entry(st: Store, d: usize, p: Seq<u8>, mode: u16, uid: u32, gid: u32) -> Option<(u32, u32, Seq<u8>, Store, Store)> {
    let rs = path_ranges(p);
    if rs.len() == 0 {
        None
    } else {
        let name = p.subrange(rs.last().0, rs.last().1);
        match walk_spec(st, d, p, rs.take(rs.len() - 1), 0, ROOT_INODE) {
            Some((Ok(parent), st1)) => match allocate_spec(st1, d, true) {
                Some((Ok(n), st2)) => match write_inode_spec(st2, d, n, fresh_inode(mode, uid, gid)) {
                    Some((Ok(()), st3)) => Some((parent, n, name, st2, st3)),
                    _ => None,
                },
                _ => None,
            },
            _ => None,
        }
    }
}

/// Walking all components is walking all but the last, then the last.
proof fn lemma_walk_split(st: Store, d: usize, p: Seq<u8>, rs: Seq<(int, int)>, m: int, k: int, cur: u32)
    requires
        0 <= k <= m < rs.len(),
    ensures
        walk_spec(st, d, p, rs, k, cur) == match walk_spec(st, d, p, rs.take(m), k, cur) {
            Some((Ok(c), s1)) => walk_spec(s1, d, p, rs, m, c),
            other => other,
        },
    decreases m - k,
{
    if k < m {
        assert(rs.take(m)[k] == rs[k]);
        match find_spec(st, d, cur, p.subrange(rs[k].0, rs[k].1)) {
            Some((Ok(n), st1)) => lemma_walk_split(st1, d, p, rs, m, k + 1, n),
            _ => {},
        }
    }
}

/// The root path has no components.
proof fn lemma_root_has_no_components()
    ensures
        path_ranges("/".spec_bytes()).len() == 0,
{
    reveal_strlit("/");
    vstd::string::is_ascii_spec_bytes("/");
    let p = "/".spec_bytes();
    assert(p.len() == 1);
    assert(p[0] == SLASH);
    assert(ranges_acc(p, 1, 1, Seq::empty()) == Seq::<(int, int)>::empty());
}

/// A created file is found by its path: after `create_file` makes `p`,
/// looking `p` up gives the inode that was allocated for it. This holds
/// when the parent directory, at the moment the entry is added, meets the
/// hypotheses of adding an entry (see `add_entry_case`), the path to the
/// parent still leads to it afterwards, and the cache does not fill.
#[verifier::rlimit(60)]
pub proof fn lemma_create_then_lookup(st: Store, d: usize, p: Seq<u8>, mode: u16, uid: u32, gid: u32)
    requires
        create_before_entry(st, d, p, mode, uid, gid) matches Some((parent, n, name, _, st3))
            && add_entry_case(st3, d, parent, name, n, 1u8),
        create_file_spec(st, d, p, mode, uid, gid) matches Some((_, s4))
            && (walk_spec(s4, d, p, path_ranges(p).take(path_ranges(p).len() - 1), 0, ROOT_INODE) matches Some((Ok(q), _))
                && q == (create_before_entry(st, d, p, mode, uid, gid)->0).0)
            && (lookup_spec(s4, d, p) matches Some((_, s6)) && s6.0.len() < CACHE_SIZE),
    ensures
        create_file_spec(st, d, p, mode, uid, gid) matches Some((Ok(()), s4))
            && (lookup_spec(s4, d, p) matches Some((Ok(r), _)) && r == (create_before_entry(st, d, p, mode, uid, gid)->0).1),
{
    let rs = path_ranges(p);
    let m = rs.len() - 1;
    let (parent, n, name, _, st3) = create_before_entry(st, d, p, mode, uid, gid)->0;
    assert(create_file_spec(st, d, p, mode, uid, gid) == add_entry_spec(st3, d, parent, name, n, 1u8));
    let (_, s4) = create_file_spec(st, d, p, mode, uid, gid)->0;
    lemma_root_has_no_components();
    lemma_walk_split(s4, d, p, rs, m, 0, ROOT_INODE);
    let (_, s5) = walk_spec(s4, d, p, rs.take(m), 0, ROOT_INODE)->0;
    lemma_walk_kept(s4, d, p, rs.take(m), 0, ROOT_INODE);
    assert(rs[m] == rs.last());
    assert(p != "/".spec_bytes());
    assert(lookup_spec(s4, d, p) == walk_spec(s4, d, p, rs, 0, ROOT_INODE));
    assert(walk_spec(s4, d, p, rs, 0, ROOT_INODE) == walk_spec(s5, d, p, rs, m, parent));
    assert(walk_spec(s5, d, p, rs, m, parent) is Some);
    assert(find_spec(s5, d, parent, name) is Some);
    crate::fs::ext2::directory::lemma_find_kept(s5, d, parent, name);
    let (fr, s6) = find_spec(s5, d, parent, name)->0;
    match fr {
        Ok(n2) => {
            assert(walk_spec(s6, d, p, rs, m + 1, n2) == Some((Ok::<u32, ()>(n2), s6)));
        },
        Err(_) => {},
    }
    assert((lookup_spec(s4, d, p)->0).1 == s6);
    assert(s5.0.len() < CACHE_SIZE);
    lemma_add_entry_side(st3, d, parent, name, n, 1u8);
    let (rx, s1) = read_inode_spec(st3, d, parent)->0;
    let x = rx->Ok_0;
    let (rd, _) = read_inode_data_spec(s1, d, x)->0;
    let data = rd->Ok_0;
    let data2 = data + entry_bytes(n, name, 1u8);
    let x2 = InodeView { size: data2.len() as u32, ..x };
    let nb = blocks_of(data2.len() as int);
    let (sec, off) = location_by_views(st3, d, parent)->0;
    let b = view_of(st3, d, sec)->0;
    assert(x.osd2.len() == 12);
    assert(direct_blocks(x2, nb));
    assert(location_by_views(s5, d, parent) == location_by_views(s4, d, parent));
    assert(view_of(s5, d, sec) == view_of(s4, d, sec));
    assert forall|j: int, k: int| 0 <= j < nb && 0 <= k < 2 implies view_of(s5, d, (x2.block[j] * 2 + k) as u64)
        == Some(#[trigger] chunk(data2, j, k)) by {
        assert(view_of(s5, d, (x2.block[j] * 2 + k) as u64) == view_of(s4, d, (x2.block[j] * 2 + k) as u64));
    }
    lemma_find_side(s5, d, parent, name, n, data, data2, x2, sec, off, b);
}

/// The new inode's sector lies apart from the superblock and its group
/// descriptor's sector, and both lie apart from what adding the entry
/// writes: the parent's inode sector and the blocks of the grown directory.
pub open spec fn new_inode_apart(st2: Store, st3: Store, d: usize, parent: u32, n: u32, name: Seq<u8>) -> bool {
    location_by_views(st2, d, n) matches Some((sec, _)) && (bgd_sector_by_views(st2, d, n) matches Some(bsec)
        && (location_by_views(st3, d, parent) matches Some((psec, _))
        && (read_inode_spec(st3, d, parent) matches Some((Ok(x), s1))
        && (read_inode_data_spec(s1, d, x) matches Some((Ok(data), _)) && {
            let nb = blocks_of((data + entry_bytes(n, name, 1u8)).len() as int);
            &&& sec != SUPERBLOCK_SECTOR
            &&& sec != bsec
            &&& sec != psec
            &&& bsec != psec
            &&& !in_blocks(x, 0, nb, sec)
            &&& !in_blocks(x, 0, nb, bsec)
        }))))
}

/// Adding an entry leaves a freshly written inode's bytes in place, when
/// its sectors lie apart from what the entry writes.
proof fn lemma_entry_keeps_inode(st2: Store, d: usize, parent: u32, n: u32, name: Seq<u8>, v: InodeView)
    requires
        coherent(st2),
        sectors_whole(st2, d),
        v.block.len() == 15,
        v.osd2.len() == 12,
        write_inode_spec(st2, d, n, v) matches Some((Ok(()), st3))
            && add_entry_case(st3, d, parent, name, n, 1u8) && new_inode_apart(st2, st3, d, parent, n, name)
            && (add_entry_spec(st3, d, parent, name, n, 1u8) matches Some((_, s4)) && s4.0.len() < CACHE_SIZE),
    ensures
        write_inode_spec(st2, d, n, v) matches Some((_, st3))
            && (add_entry_spec(st3, d, parent, name, n, 1u8) matches Some((_, s4)) && coherent(s4)
            && (location_by_views(s4, d, n) matches Some((sec, off))
            && (view_of(s4, d, sec) matches Some(c) && ino_parse(c, off) == v))),
{
    let (_, st3) = write_inode_spec(st2, d, n, v)->0;
    let (_, s4) = add_entry_spec(st3, d, parent, name, n, 1u8)->0;
    lemma_add_entry_side(st3, d, parent, name, n, 1u8);
    lemma_write_inode_grows(st2, d, n, v);
    lemma_write_inode_views(st2, d, n, v);
    let (sec, off) = location_by_views(st2, d, n)->0;
    let bsec = bgd_sector_by_views(st2, d, n)->0;
    let b = view_of(st2, d, sec)->0;
    assert(b.len() == 512);
    assert(view_of(st3, d, SUPERBLOCK_SECTOR) == view_of(st2, d, SUPERBLOCK_SECTOR));
    assert(view_of(st3, d, bsec) == view_of(st2, d, bsec));
    assert(location_by_views(st3, d, n) == Some((sec, off)));
    let (rx, t1) = read_inode_spec(st3, d, parent)->0;
    let x = rx->Ok_0;
    let (rd, _) = read_inode_data_spec(t1, d, x)->0;
    let data = rd->Ok_0;
    let data2 = data + entry_bytes(n, name, 1u8);
    let x2 = InodeView { size: data2.len() as u32, ..x };
    let nb = blocks_of(data2.len() as int);
    assert(!in_blocks(x2, 0, nb, sec));
    assert(!in_blocks(x2, 0, nb, bsec));
    assert(!in_blocks(x2, 0, nb, SUPERBLOCK_SECTOR));
    assert(view_of(s4, d, SUPERBLOCK_SECTOR) == view_of(st3, d, SUPERBLOCK_SECTOR));
    assert(view_of(s4, d, bsec) == view_of(st3, d, bsec));
    assert(view_of(s4, d, sec) == view_of(st3, d, sec));
    assert(location_by_views(s4, d, n) == Some((sec, off)));
    lemma_inode_roundtrip(b, off, v);
}

/// A store whose views hold inode `n` as `v` reads it as `v`, when
/// nothing evicts.
proof fn lemma_read_held_inode(st: Store, d: usize, n: u32, v: InodeView)
    requires
        coherent(st),
        location_by_views(st, d, n) matches Some((sec, off)) && (view_of(st, d, sec) matches Some(c) && ino_parse(c, off) == v),
        read_inode_spec(st, d, n) matches Some((_, s1)) && s1.0.len() < CACHE_SIZE,
    ensures
        read_inode_spec(st, d, n) matches Some((Ok(x), _)) && x == v,
{
    lemma_read_inode_kept(st, d, n);
}

/// After a create that evicts nothing, the views hold the new inode as
/// made.
#[verifier::rlimit(60)]
proof fn lemma_create_holds_inode(st: Store, d: usize, p: Seq<u8>, mode: u16, uid: u32, gid: u32)
    requires
        coherent(st),
        sectors_whole(st, d),
        create_before_entry(st, d, p, mode, uid, gid) matches Some((parent, n, name, st2, st3))
            && add_entry_case(st3, d, parent, name, n, 1u8) && new_inode_apart(st2, st3, d, parent, n, name),
        create_file_spec(st, d, p, mode, uid, gid) matches Some((_, s4)) && s4.0.len() < CACHE_SIZE,
    ensures
        create_file_spec(st, d, p, mode, uid, gid) matches Some((Ok(()), s4)) && coherent(s4)
            && (location_by_views(s4, d, (create_before_entry(st, d, p, mode, uid, gid)->0).1) matches Some((sec, off))
            && (view_of(s4, d, sec) matches Some(c) && ino_parse(c, off) == fresh_inode(mode, uid, gid))),
{
    let rs = path_ranges(p);
    let m = rs.len() - 1;
    let (parent, n, name, st2, st3) = create_before_entry(st, d, p, mode, uid, gid)->0;
    let (_, st1) = walk_spec(st, d, p, rs.take(m), 0, ROOT_INODE)->0;
    let v = fresh_inode(mode, uid, gid);
    assert(write_inode_spec(st2, d, n, v) matches Some((Ok(()), s)) && s == st3);
    assert(create_file_spec(st, d, p, mode, uid, gid) == add_entry_spec(st3, d, parent, name, n, 1u8));
    lemma_add_entry_side(st3, d, parent, name, n, 1u8);
    assert(in_range(st));
    lemma_walk_kept(st, d, p, rs.take(m), 0, ROOT_INODE);
    crate::fs::ext2::bitmap::lemma_allocate_coherent(st1, d, true);
    assert(in_range(st2));
    lemma_write_inode_grows(st2, d, n, v);
    assert(coherent(st2));
    assert forall|t: u64| #[trigger] view_of(st1, d, t) == view_of(st, d, t) by {}
    assert(sectors_whole(st1, d));
    assert(sectors_whole(st2, d));
    assert(v.block.len() == 15 && v.osd2.len() == 12);
    lemma_entry_keeps_inode(st2, d, parent, n, name, v);
}

/// A created file's inode reads back as made: after `create_file` makes
/// `p`, reading the inode allocated for it gives the given mode, owner and
/// group, size 0, one link and no blocks. This holds when the parent
/// directory meets the hypotheses of adding an entry (see
/// `add_entry_case`), the new inode's sector and its group descriptor lie
/// apart from what is written (see `new_inode_apart`), the device's
/// sectors are whole, and the cache does not fill.
pub proof fn lemma_create_then_read_inode(st: Store, d: usize, p: Seq<u8>, mode: u16, uid: u32, gid: u32)
    requires
        coherent(st),
        sectors_whole(st, d),
        create_before_entry(st, d, p, mode, uid, gid) matches Some((parent, n, name, st2, st3))
            && add_entry_case(st3, d, parent, name, n, 1u8) && new_inode_apart(st2, st3, d, parent, n, name),
        create_file_spec(st, d, p, mode, uid, gid) matches Some((_, s4))
            && (read_inode_spec(s4, d, (create_before_entry(st, d, p, mode, uid, gid)->0).1) matches Some((_, s5))
                && s5.0.len() < CACHE_SIZE),
    ensures
        create_file_spec(st, d, p, mode, uid, gid) matches Some((Ok(()), s4))
            && (read_inode_spec(s4, d, (create_before_entry(st, d, p, mode, uid, gid)->0).1) matches Some((Ok(x), _))
                && x == fresh_inode(mode, uid, gid)),
{
    let (_, n, _, _, _) = create_before_entry(st, d, p, mode, uid, gid)->0;
    let (_, s4) = create_file_spec(st, d, p, mode, uid, gid)->0;
    lemma_read_inode_kept(s4, d, n);
    lemma_create_holds_inode(st, d, p, mode, uid, gid);
    lemma_read_held_inode(s4, d, n, fresh_inode(mode, uid, gid));
}

/// A created file stats as made: after `create_file` makes `p`, `stat` of
/// `p` gives size 0 and the given mode, owner and group. This holds under
/// the hypotheses of finding the file and of reading its inode back (see
/// `lemma_create_then_lookup` and `lemma_create_then_read_inode`).
pub proof fn lemma_create_then_stat(st: Store, d: usize, p: Seq<u8>, mode: u16, uid: u32, gid: u32)
    requires
        coherent(st),
        sectors_whole(st, d),
        create_before_entry(st, d, p, mode, uid, gid) matches Some((parent, n, name, st2, st3))
            && add_entry_case(st3, d, parent, name, n, 1u8) && new_inode_apart(st2, st3, d, parent, n, name),
        create_file_spec(st, d, p, mode, uid, gid) matches Some((_, s4))
            && (walk_spec(s4, d, p, path_ranges(p).take(path_ranges(p).len() - 1), 0, ROOT_INODE) matches Some((Ok(q), _))
                && q == (create_before_entry(st, d, p, mode, uid, gid)->0).0)
            && (stat_spec(s4, d, p) matches Some((_, s6)) && s6.0.len() < CACHE_SIZE),
    ensures
        create_file_spec(st, d, p, mode, uid, gid) matches Some((Ok(()), s4))
            && (stat_spec(s4, d, p) matches Some((Ok(f), _))
                && f == (FileStat { size: 0, mode, uid, gid, is_dir: mode & MODE_DIR != 0 })),
{
    let (_, n, _, _, _) = create_before_entry(st, d, p, mode, uid, gid)->0;
    let (_, s4) = create_file_spec(st, d, p, mode, uid, gid)->0;
    lemma_lookup_kept(s4, d, p);
    let (lr, s5) = lookup_spec(s4, d, p)->0;
    if lr is Ok {
        lemma_read_inode_kept(s5, d, lr->Ok_0);
    }
    assert(s5.0.len() < CACHE_SIZE);
    lemma_create_then_lookup(st, d, p, mode, uid, gid);
    assert(lr == Ok::<u32, ()>(n));
    lemma_create_holds_inode(st, d, p, mode, uid, gid);
    let (sec, off) = location_by_views(s4, d, n)->0;
    assert(view_of(s5, d, sec) == view_of(s4, d, sec));
    assert(location_by_views(s5, d, n) == location_by_views(s4, d, n));
    lemma_read_held_inode(s5, d, n, fresh_inode(mode, uid, gid));
}

} // verus!
