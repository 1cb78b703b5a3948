use vstd::prelude::*;
use crate::fs::ext2::inode::{Inode, InodeView};
use crate::fs::ext2::layout::{get_u32, zeros};
use crate::fs::cache::CACHE_SIZE;
use crate::drivers::block::registry_read;
use crate::fs::store::{
    Storage, Store, coherent, kept, lemma_kept_refl, lemma_kept_trans, lemma_read_kept, lemma_read_step, lemma_read_view, lemma_write_kept,
    lemma_write_view, st_fits, st_read, st_write, view_of,
};
use crate::wayland::protocol::wire_u32;
use crate::util::zero_bytes;

verus! {

/// Bytes per file-system block: two sectors.
pub const BLOCK_SIZE: usize = 1024;
/// Block pointers in an indirect block.
pub const ENTRIES_PER_BLOCK: usize = 256;

/// Entry `index` of the indirect block `block` (its two sectors hold 128
/// pointers each), read through the cache; block 0 means no block, and a
/// sector the device cannot give is an error. `None` when reading would
/// overflow.
pub open spec fn indirect_spec(st: Store, d: usize, block: u32, index: int) -> Option<(Result<u32, ()>, Store)> {
    if block == 0 {
        Some((Err(()), st))
    } else {
        let sector = (block * 2 + index / 128) as u64;
        if !st_fits(st, d, sector) {
            None
        } else {
            match st_read(st, d, sector) {
                None => Some((Err(()), st)),
                Some((b, st1)) => Some((Ok(wire_u32(b, (index % 128) * 4)), st1)),
            }
        }
    }
}

/// The block that holds block `index` of a file: one of the twelve direct
/// pointers, then the single indirect block, then the double indirect
/// block; past those, an error.
pub open spec fn block_number_spec(st: Store, d: usize, x: InodeView, index: int) -> Option<(Result<u32, ()>, Store)> {
    if index < 12 {
        Some((Ok(x.block[index]), st))
    } else if index - 12 < 256 {
        indirect_spec(st, d, x.block[12], index - 12)
    } else if index - 268 < 65536 {
        match indirect_spec(st, d, x.block[13], (index - 268) / 256) {
            None => None,
            Some((Err(e), st1)) => Some((Err(e), st1)),
            Some((Ok(fb), st1)) => indirect_spec(st1, d, fb, (index - 268) % 256),
        }
    } else {
        Some((Err(()), st))
    }
}

/// Reads entry `index` of an indirect block (see `indirect_spec`).
pub fn read_indirect_block(storage: &mut Storage, device: usize, block: u32, index: usize) -> (r: Result<u32, ()>)
    requires
        old(storage).wf(),
        indirect_spec(old(storage).store(), device, block, index as int) is Some,
    ensures
        final(storage).wf(),
        indirect_spec(old(storage).store(), device, block, index as int) == Some((r, final(storage).store())),
{
    if block == 0 {
        return Err(());
    }
    let buffer = match storage.read(device, (block as u64 * 2) + (index / 128) as u64) {
        Ok(b) => b,
        Err(e) => {
            return Err(e);
        },
    };
    let offset = (index % 128) * 4;
    Ok(get_u32(&buffer, offset))
}

/// Finds the block that holds block `index` of a file (see
/// `block_number_spec`).
pub fn get_block_number(storage: &mut Storage, device: usize, inode: &Inode, index: usize) -> (r: Result<u32, ()>)
    requires
        old(storage).wf(),
        block_number_spec(old(storage).store(), device, inode@, index as int) is Some,
    ensures
        final(storage).wf(),
        block_number_spec(old(storage).store(), device, inode@, index as int) == Some((r, final(storage).store())),
{
    if index < 12 {
        return Ok(inode.block[index]);
    }
    let index = index - 12;
    let entries_per_block = ENTRIES_PER_BLOCK;
    if index < entries_per_block {
        return read_indirect_block(storage, device, inode.block[12], index);
    }
    let index = index - entries_per_block;
    if index < entries_per_block * entries_per_block {
        let first_level = index / entries_per_block;
        let second_level = index % entries_per_block;
        let first_block = match read_indirect_block(storage, device, inode.block[13], first_level) {
            Ok(b) => b,
            Err(e) => {
                return Err(e);
            },
        };
        return read_indirect_block(storage, device, first_block, second_level);
    }
    Err(())
}

/// `data` extended by the bytes of `sector` that the file still lacks (at
/// most the 512 of the sector); an error when the device cannot give the
/// sector, `None` when reading it would overflow.
pub open spec fn sector_copy(st: Store, d: usize, sector: u64, size: u32, data: Seq<u8>) -> Option<(Result<Seq<u8>, ()>, Store)> {
    if !st_fits(st, d, sector) {
        None
    } else {
        match st_read(st, d, sector) {
            None => Some((Err(()), st)),
            Some((buf, st1)) => {
                let remaining = if size >= data.len() { size - data.len() } else { 0 };
                let to_copy = if remaining < 512 { remaining } else { 512 };
                Some((Ok(data + buf.subrange(0, to_copy)), st1))
            },
        }
    }
}

/// The file's bytes gathered from block `i` on (of `n`), after `data`: a
/// missing pointer ends the data, an unmappable block or unreadable sector
/// is an error.
pub open spec fn data_spec(st: Store, d: usize, x: InodeView, i: int, n: int, data: Seq<u8>) -> Option<(Result<Seq<u8>, ()>, Store)>
    decreases n - i,
{
    if i >= n {
        Some((Ok(data), st))
    } else {
        match block_number_spec(st, d, x, i) {
            None => None,
            Some((Err(e), st1)) => Some((Err(e), st1)),
            Some((Ok(b), st1)) => if b == 0 {
                Some((Ok(data), st1))
            } else {
                match sector_copy(st1, d, (b * 2) as u64, x.size, data) {
                    None => None,
                    Some((Err(e), st2)) => Some((Err(e), st2)),
                    Some((Ok(data2), st2)) => match sector_copy(st2, d, (b * 2 + 1) as u64, x.size, data2) {
                        None => None,
                        Some((Err(e), st3)) => Some((Err(e), st3)),
                        Some((Ok(data3), st3)) => data_spec(st3, d, x, i + 1, n, data3),
                    },
                }
            },
        }
    }
}

/// The bytes of a file, read block by block through the cache; `None`
/// when the block count overflows.
pub open spec fn read_inode_data_spec(st: Store, d: usize, x: InodeView) -> Option<(Result<Seq<u8>, ()>, Store)> {
    if x.size + 1024 > u32::MAX {
        None
    } else {
        data_spec(st, d, x, 0, (x.size + 1023) / 1024, Seq::empty())
    }
}

/// Appends to `data` the bytes of `sector` that the file still lacks.
fn copy_sector(storage: &mut Storage, device: usize, sector: u64, size: u32, data: &mut Vec<u8>) -> (r: Result<(), ()>)
    requires
        old(storage).wf(),
        sector_copy(old(storage).store(), device, sector, size, old(data)@) is Some,
        old(data)@.len() <= size,
    ensures
        final(storage).wf(),
        sector_copy(old(storage).store(), device, sector, size, old(data)@) == Some((
            match r {
                Ok(_) => Ok::<Seq<u8>, ()>(final(data)@),
                Err(e) => Err::<Seq<u8>, ()>(e),
            },
            final(storage).store(),
        )),
        final(data)@.len() <= size,
{
    let buffer = match storage.read(device, sector) {
        Ok(b) => b,
        Err(e) => {
            return Err(e);
        },
    };
    let remaining = (size as usize).saturating_sub(data.len());
    let to_copy = if remaining < 512 { remaining } else { 512 };
    let ghost before = data@;
    let mut k: usize = 0;
    while k < to_copy
        invariant
            k <= to_copy,
            to_copy <= 512,
            buffer@.len() == 512,
            data@ == before + buffer@.subrange(0, k as int),
        decreases to_copy - k,
    {
        data.push(buffer[k]);
        k += 1;
        proof {
            assert(data@ =~= before + buffer@.subrange(0, k as int));
        }
    }
    Ok(())
}

/// Reads a file's bytes (see `read_inode_data_spec`).
pub fn read_inode_data(storage: &mut Storage, device: usize, inode: &Inode) -> (r: Result<Vec<u8>, ()>)
    requires
        old(storage).wf(),
        read_inode_data_spec(old(storage).store(), device, inode@) is Some,
    ensures
        final(storage).wf(),
        read_inode_data_spec(old(storage).store(), device, inode@) == Some((
            match r {
                Ok(v) => Ok::<Seq<u8>, ()>(v@),
                Err(e) => Err::<Seq<u8>, ()>(e),
            },
            final(storage).store(),
        )),
{
    let mut data: Vec<u8> = Vec::new();
    let block_size: u32 = 1024;
    let blocks_needed = ((inode.size + block_size - 1) / block_size) as usize;
    let ghost n = blocks_needed as int;
    let mut i: usize = 0;
    while i < blocks_needed
        invariant
            n == blocks_needed,
            n == (inode@.size + 1023) / 1024,
            i <= blocks_needed,
            storage.wf(),
            data@.len() <= inode.size,
            read_inode_data_spec(old(storage).store(), device, inode@) == data_spec(
                old(storage).store(),
                device,
                inode@,
                0,
                n,
                Seq::empty(),
            ),
            data_spec(storage.store(), device, inode@, i as int, n, data@) == data_spec(
                old(storage).store(),
                device,
                inode@,
                0,
                n,
                Seq::empty(),
            ),
            data_spec(storage.store(), device, inode@, i as int, n, data@) is Some,
        decreases blocks_needed - i,
    {
        let block_num = match get_block_number(storage, device, inode, i) {
            Ok(b) => b,
            Err(e) => {
                return Err(e);
            },
        };
        if block_num == 0 {
            return Ok(data);
        }
        match copy_sector(storage, device, block_num as u64 * 2, inode.size, &mut data) {
            Ok(_) => {},
            Err(e) => {
                return Err(e);
            },
        }
        match copy_sector(storage, device, block_num as u64 * 2 + 1, inode.size, &mut data) {
            Ok(_) => {},
            Err(e) => {
                return Err(e);
            },
        }
        i += 1;
    }
    Ok(data)
}

/// Sector `s` (0 or 1) of block `i` of `data` as written: the bytes of the
/// data that fall in it, then zeros.
pub open spec fn chunk(data: Seq<u8>, i: int, s: int) -> Seq<u8> {
    let start = i * 1024;
    let end = if (i + 1) * 1024 < data.len() { (i + 1) * 1024 } else { data.len() as int };
    let ds = start + s * 512;
    let de = if ds + 512 < end { ds + 512 } else { end };
    if ds < end {
        data.subrange(ds, de) + zeros((512 - (de - ds)) as nat)
    } else {
        zeros(512)
    }
}

/// Writing a file's bytes from block `i` on (of `n`): each block must be
/// mapped, and gets its two sectors.
pub open spec fn write_data_spec(st: Store, d: usize, x: InodeView, data: Seq<u8>, i: int, n: int) -> Option<(Result<(), ()>, Store)>
    decreases n - i,
{
    if i >= n {
        Some((Ok(()), st))
    } else {
        match block_number_spec(st, d, x, i) {
            None => None,
            Some((Err(e), st1)) => Some((Err(e), st1)),
            Some((Ok(b), st1)) => if b == 0 {
                Some((Err(()), st1))
            } else {
                let st2 = st_write(st1, d, (b * 2) as u64, chunk(data, i, 0));
                let st3 = st_write(st2, d, (b * 2 + 1) as u64, chunk(data, i, 1));
                write_data_spec(st3, d, x, data, i + 1, n)
            },
        }
    }
}

/// Writing a file's bytes through the cache; `None` when the block count
/// overflows.
pub open spec fn write_inode_data_spec(st: Store, d: usize, x: InodeView, data: Seq<u8>) -> Option<(Result<(), ()>, Store)> {
    if data.len() + 1024 > usize::MAX {
        None
    } else {
        write_data_spec(st, d, x, data, 0, ((data.len() + 1023) / 1024) as int)
    }
}

/// Sector `s` of block `i` of `data`, zero-padded.
#[verifier::spinoff_prover]
fn fill_chunk(data: &[u8], i: usize, s: usize) -> (buf: [u8; 512])
    requires
        i * 1024 < data@.len(),
        data@.len() + 1024 <= usize::MAX,
        s < 2,
    ensures
        buf@ == chunk(data@, i as int, s as int),
{
    let len = data.len();
    let start = i * 1024;
    let end = if (i + 1) * 1024 < len { (i + 1) * 1024 } else { len };
    let mut buffer: [u8; 512] = zero_bytes();
    let data_start = start + s * 512;
    let data_end = if data_start + 512 < end { data_start + 512 } else { end };
    if data_start < end {
        let copy_len = data_end - data_start;
        let mut k: usize = 0;
        while k < copy_len
            invariant
                k <= copy_len,
                copy_len <= 512,
                data_end <= data@.len(),
                copy_len == data_end - data_start,
                buffer@.len() == 512,
                forall|j: int| 0 <= j < k ==> buffer@[j] == data@[data_start + j],
                forall|j: int| k <= j < 512 ==> buffer@[j] == 0,
            decreases copy_len - k,
        {
            buffer[k] = data[data_start + k];
            k += 1;
        }
    }
    proof {
        let c = chunk(data@, i as int, s as int);
        if data_start < end {
            assert(c == data@.subrange(data_start as int, data_end as int) + zeros((512 - (data_end - data_start)) as nat));
        } else {
            assert(c == zeros(512));
        }
        assert(buffer@ =~= c);
    }
    buffer
}

/// Writes a file's bytes into the blocks its inode maps (see
/// `write_inode_data_spec`).
pub fn write_inode_data(storage: &mut Storage, device: usize, inode: &Inode, data: &[u8]) -> (r: Result<(), ()>)
    requires
        old(storage).wf(),
        write_inode_data_spec(old(storage).store(), device, inode@, data@) is Some,
    ensures
        final(storage).wf(),
        write_inode_data_spec(old(storage).store(), device, inode@, data@) == Some((r, final(storage).store())),
{
    let block_size: usize = BLOCK_SIZE;
    let blocks_needed = (data.len() + block_size - 1) / block_size;
    let ghost n = blocks_needed as int;
    let mut i: usize = 0;
    while i < blocks_needed
        invariant
            n == blocks_needed,
            n == (data@.len() + 1023) / 1024,
            i <= blocks_needed,
            storage.wf(),
            data@.len() + 1024 <= usize::MAX,
            write_inode_data_spec(old(storage).store(), device, inode@, data@) == write_data_spec(
                old(storage).store(),
                device,
                inode@,
                data@,
                0,
                n,
            ),
            write_data_spec(storage.store(), device, inode@, data@, i as int, n) == write_data_spec(
                old(storage).store(),
                device,
                inode@,
                data@,
                0,
                n,
            ),
            write_data_spec(storage.store(), device, inode@, data@, i as int, n) is Some,
        decreases blocks_needed - i,
    {
        let block_num = match get_block_number(storage, device, inode, i) {
            Ok(b) => b,
            Err(e) => {
                return Err(e);
            },
        };
        if block_num == 0 {
            return Err(());
        }
        proof {
            assert(i * 1024 < data@.len()) by (nonlinear_arith)
                requires
                    i < n,
                    n == (data@.len() + 1023) / 1024,
            ;
        }
        let b0 = fill_chunk(data, i, 0);
        storage.write(device, block_num as u64 * 2, &b0);
        let b1 = fill_chunk(data, i, 1);
        storage.write(device, block_num as u64 * 2 + 1, &b1);
        i += 1;
    }
    Ok(())
}

/// The first `n` block pointers of the inode are direct, set and distinct.
pub open spec fn direct_blocks(x: InodeView, n: int) -> bool {
    &&& 0 <= n <= 12
    &&& x.block.len() == 15
    &&& forall|j: int| 0 <= j < n ==> #[trigger] x.block[j] != 0
    &&& forall|j: int, k: int| 0 <= j < n && 0 <= k < n && j != k ==> #[trigger] x.block[j] != #[trigger] x.block[k]
}

/// Sector `s` of device `d` is one of the sectors of blocks `i..n`.
pub open spec fn in_blocks(x: InodeView, i: int, n: int, s: u64) -> bool {
    exists|j: int| i <= j < n && (s == (x.block[j] * 2) as u64 || s == (x.block[j] * 2 + 1) as u64)
}

/// Writing blocks `i..n` leaves each of their sectors reading as its chunk
/// and every other sector as it was.
proof fn lemma_write_blocks(st: Store, d: usize, x: InodeView, data: Seq<u8>, i: int, n: int)
    requires
        coherent(st),
        st.0.len() + 2 * (n - i) < CACHE_SIZE,
        direct_blocks(x, n),
        0 <= i <= n,
        write_data_spec(st, d, x, data, i, n) matches Some((Ok(()), _)),
    ensures
        write_data_spec(st, d, x, data, i, n) matches Some((_, stw)) && {
            &&& coherent(stw)
            &&& stw.2 == st.2
            &&& stw.0.len() <= st.0.len() + 2 * (n - i)
            &&& forall|j: int, k: int| i <= j < n && 0 <= k < 2 ==> view_of(stw, d, (x.block[j] * 2 + k) as u64) == Some(#[trigger] chunk(data, j, k))
            &&& forall|s2: u64| !in_blocks(x, i, n, s2) ==> #[trigger] view_of(stw, d, s2) == view_of(st, d, s2)
        },
    decreases n - i,
{
    if i < n {
        let b = x.block[i];
        let s0 = (b * 2) as u64;
        let s1 = (b * 2 + 1) as u64;
        let st2 = st_write(st, d, s0, chunk(data, i, 0));
        lemma_write_view(st, d, s0, chunk(data, i, 0));
        let st3 = st_write(st2, d, s1, chunk(data, i, 1));
        lemma_write_view(st2, d, s1, chunk(data, i, 1));
        lemma_write_blocks(st3, d, x, data, i + 1, n);
        let (_, stw) = write_data_spec(st3, d, x, data, i + 1, n)->0;
        assert(write_data_spec(st, d, x, data, i, n) == write_data_spec(st3, d, x, data, i + 1, n));
        assert(!in_blocks(x, i + 1, n, s0)) by {
            if in_blocks(x, i + 1, n, s0) {
                let j = choose|j: int| i + 1 <= j < n && (s0 == (x.block[j] * 2) as u64 || s0 == (x.block[j] * 2 + 1) as u64);
                assert(x.block[j] != x.block[i]);
            }
        }
        assert(!in_blocks(x, i + 1, n, s1)) by {
            if in_blocks(x, i + 1, n, s1) {
                let j = choose|j: int| i + 1 <= j < n && (s1 == (x.block[j] * 2) as u64 || s1 == (x.block[j] * 2 + 1) as u64);
                assert(x.block[j] != x.block[i]);
            }
        }
        assert forall|j: int, k: int| i <= j < n && 0 <= k < 2 implies view_of(stw, d, (x.block[j] * 2 + k) as u64) == Some(#[trigger] chunk(data, j, k)) by {
            if j == i {
                if k == 0 {
                    assert(view_of(stw, d, s0) == view_of(st3, d, s0));
                    assert(view_of(st3, d, s0) == view_of(st2, d, s0));
                } else {
                    assert(view_of(stw, d, s1) == view_of(st3, d, s1));
                }
            }
        }
        assert forall|s2: u64| !in_blocks(x, i, n, s2) implies #[trigger] view_of(stw, d, s2) == view_of(st, d, s2) by {
            if in_blocks(x, i + 1, n, s2) {
                let j = choose|j: int| i + 1 <= j < n && (s2 == (x.block[j] * 2) as u64 || s2 == (x.block[j] * 2 + 1) as u64);
                assert(in_blocks(x, i, n, s2));
            }
            assert(s2 != s0 && s2 != s1) by {
                if s2 == s0 || s2 == s1 {
                    assert(in_blocks(x, i, n, s2));
                }
            }
            assert(view_of(stw, d, s2) == view_of(st3, d, s2));
            assert(view_of(st3, d, s2) == view_of(st2, d, s2));
        }
    }
}

/// The first sector of a chunk holds the data's bytes that fall in it.
proof fn lemma_chunk_prefix(data: Seq<u8>, i: int, k: int, m: int)
    requires
        0 <= i,
        0 <= k < 2,
        0 <= m <= 512,
        i * 1024 + k * 512 + m <= data.len(),
        k == 1 ==> i * 1024 + 1024 <= data.len() || i * 1024 + 512 + m <= data.len(),
    ensures
        chunk(data, i, k).subrange(0, m) == data.subrange(i * 1024 + k * 512, i * 1024 + k * 512 + m),
{
    let start = i * 1024;
    let end = if (i + 1) * 1024 < data.len() { (i + 1) * 1024 } else { data.len() as int };
    let ds = start + k * 512;
    let de = if ds + 512 < end { ds + 512 } else { end };
    if m > 0 {
        assert(ds < end);
        assert(de - ds >= m);
        assert(chunk(data, i, k) == data.subrange(ds, de) + zeros((512 - (de - ds)) as nat));
        assert(chunk(data, i, k).subrange(0, m) =~= data.subrange(ds, ds + m));
    } else {
        assert(chunk(data, i, k).subrange(0, m) =~= data.subrange(ds, ds + m));
    }
}

/// Reading blocks `i..n` whose sectors hold the data's chunks gathers the
/// rest of the data after the part already read.
proof fn lemma_read_blocks(st: Store, d: usize, x: InodeView, data: Seq<u8>, i: int, n: int)
    requires
        coherent(st),
        st.0.len() + 2 * (n - i) < CACHE_SIZE,
        direct_blocks(x, n),
        d < st.2.len(),
        st.2[d as int].0,
        x.size == data.len(),
        n == (data.len() + 1023) / 1024,
        0 <= i <= n,
        forall|j: int, k: int| i <= j < n && 0 <= k < 2 ==> view_of(st, d, (x.block[j] * 2 + k) as u64) == Some(#[trigger] chunk(data, j, k)),
    ensures
        data_spec(st, d, x, i, n, data.subrange(0, if i * 1024 < data.len() { i * 1024 } else { data.len() as int }))
            matches Some((Ok(r), _)) && r == data,
    decreases n - i,
{
    let len = data.len() as int;
    let acc = data.subrange(0, if i * 1024 < len { i * 1024 } else { len });
    if i >= n {
        assert(i * 1024 >= len);
        assert(acc =~= data);
    } else {
        assert(i * 1024 < len);
        let b = x.block[i];
        assert(block_number_spec(st, d, x, i) == Some((Ok::<u32, ()>(b), st)));
        let s0 = (b * 2) as u64;
        let s1 = (b * 2 + 1) as u64;
        assert(view_of(st, d, s0) == Some(chunk(data, i, 0)));
        lemma_read_view(st, d, s0);
        let (buf0, st1) = st_read(st, d, s0)->0;
        let rem0 = len - i * 1024;
        let c0 = if rem0 < 512 { rem0 } else { 512 };
        lemma_chunk_prefix(data, i, 0, c0);
        let acc2 = acc + buf0.subrange(0, c0);
        assert(acc2 =~= data.subrange(0, i * 1024 + c0));
        assert(sector_copy(st, d, s0, x.size, acc) == Some((Ok::<Seq<u8>, ()>(acc2), st1)));
        assert(view_of(st1, d, s1) == view_of(st, d, s1));
        assert(view_of(st, d, s1) == Some(chunk(data, i, 1)));
        lemma_read_view(st1, d, s1);
        let (buf1, st2) = st_read(st1, d, s1)->0;
        let rem1 = len - (i * 1024 + c0);
        let c1 = if rem1 < 512 { rem1 } else { 512 };
        if c1 > 0 {
            lemma_chunk_prefix(data, i, 1, c1);
        }
        let acc3 = acc2 + buf1.subrange(0, c1);
        let next = if (i + 1) * 1024 < len { (i + 1) * 1024 } else { len };
        assert(acc3 =~= data.subrange(0, next));
        assert(sector_copy(st1, d, s1, x.size, acc2) == Some((Ok::<Seq<u8>, ()>(acc3), st2)));
        assert forall|j: int, k: int| i + 1 <= j < n && 0 <= k < 2 implies view_of(st2, d, (x.block[j] * 2 + k) as u64) == Some(#[trigger] chunk(data, j, k)) by {
            let sj = (x.block[j] * 2 + k) as u64;
            assert(view_of(st2, d, sj) == view_of(st1, d, sj));
            assert(view_of(st1, d, sj) == view_of(st, d, sj));
        }
        lemma_read_blocks(st2, d, x, data, i + 1, n);
    }
}

/// What is written to a file's blocks reads back: after a file's data is
/// written through the cache into direct blocks that are set and distinct,
/// reading the file's data (its size being the data's length) gives the
/// data. This holds on a RAM disk while the cache has room for the sectors
/// the two calls touch (no eviction) and its index names the entry of each
/// sector it holds.
pub proof fn lemma_data_write_then_read(st: Store, d: usize, x: InodeView, data: Seq<u8>)
    requires
        coherent(st),
        st.0.len() + 50 <= CACHE_SIZE,
        d < st.2.len(),
        st.2[d as int].0,
        data.len() <= 12 * 1024,
        x.size == data.len(),
        direct_blocks(x, ((data.len() + 1023) / 1024) as int),
        write_inode_data_spec(st, d, x, data) matches Some((Ok(()), _)),
    ensures
        write_inode_data_spec(st, d, x, data) matches Some((_, stw))
            && read_inode_data_spec(stw, d, x) matches Some((Ok(r), _)) && r == data,
{
    let n = ((data.len() + 1023) / 1024) as int;
    lemma_write_blocks(st, d, x, data, 0, n);
    let (_, stw) = write_inode_data_spec(st, d, x, data)->0;
    assert(data.subrange(0, 0) =~= Seq::<u8>::empty());
    lemma_read_blocks(stw, d, x, data, 0, n);
}

/// Reading an indirect entry never shrinks the cache; without evicting it
/// keeps every view.
pub proof fn lemma_indirect_kept(st: Store, d: usize, block: u32, index: int)
    requires
        indirect_spec(st, d, block, index) is Some,
    ensures
        indirect_spec(st, d, block, index) matches Some((_, st1)) && st.0.len() <= st1.0.len()
            && (crate::fs::store::in_range(st) ==> crate::fs::store::in_range(st1))
            && (coherent(st) && st1.0.len() < CACHE_SIZE ==> kept(st, st1)),
{
    if coherent(st) {
        lemma_kept_refl(st);
    }
    if block != 0 {
        let sector = (block * 2 + index / 128) as u64;
        if st_read(st, d, sector) is Some {
            lemma_read_step(st, d, sector);
        }
    }
}

/// Finding a file's block never shrinks the cache; without evicting it
/// keeps every view.
pub proof fn lemma_block_number_kept(st: Store, d: usize, x: InodeView, index: int)
    requires
        block_number_spec(st, d, x, index) is Some,
    ensures
        block_number_spec(st, d, x, index) matches Some((_, st1)) && st.0.len() <= st1.0.len()
            && (crate::fs::store::in_range(st) ==> crate::fs::store::in_range(st1))
            && (coherent(st) && st1.0.len() < CACHE_SIZE ==> kept(st, st1)),
{
    if coherent(st) {
        lemma_kept_refl(st);
    }
    if index < 12 {
    } else if index - 12 < 256 {
        lemma_indirect_kept(st, d, x.block[12], index - 12);
    } else if index - 268 < 65536 {
        lemma_indirect_kept(st, d, x.block[13], (index - 268) / 256);
        match indirect_spec(st, d, x.block[13], (index - 268) / 256) {
            Some((Ok(fb), st1)) => {
                lemma_indirect_kept(st1, d, fb, (index - 268) % 256);
                let (_, st2) = indirect_spec(st1, d, fb, (index - 268) % 256)->0;
                if coherent(st) && st2.0.len() < CACHE_SIZE {
                    lemma_kept_trans(st, st1, st2);
                }
            },
            _ => {},
        }
    }
}

/// Copying from a sector never shrinks the cache; without evicting it
/// keeps every view, and a successful copy appends bytes of the sector's
/// view.
pub proof fn lemma_sector_copy_kept(st: Store, d: usize, sector: u64, size: u32, data: Seq<u8>)
    requires
        sector_copy(st, d, sector, size, data) is Some,
    ensures
        sector_copy(st, d, sector, size, data) matches Some((_, st1)) && st.0.len() <= st1.0.len()
            && (crate::fs::store::in_range(st) ==> crate::fs::store::in_range(st1))
            && (coherent(st) && st1.0.len() < CACHE_SIZE ==> kept(st, st1)),
{
    if coherent(st) {
        lemma_kept_refl(st);
    }
    if st_read(st, d, sector) is Some {
        lemma_read_step(st, d, sector);
    }
}

/// Gathering a file's bytes never shrinks the cache; without evicting it
/// keeps every view.
pub proof fn lemma_data_kept(st: Store, d: usize, x: InodeView, i: int, n: int, data: Seq<u8>)
    requires
        data_spec(st, d, x, i, n, data) is Some,
    ensures
        data_spec(st, d, x, i, n, data) matches Some((_, st1)) && st.0.len() <= st1.0.len()
            && (crate::fs::store::in_range(st) ==> crate::fs::store::in_range(st1))
            && (coherent(st) && st1.0.len() < CACHE_SIZE ==> kept(st, st1)),
    decreases n - i,
{
    if coherent(st) {
        lemma_kept_refl(st);
    }
    if i < n {
        lemma_block_number_kept(st, d, x, i);
        match block_number_spec(st, d, x, i) {
            Some((Ok(b), st1)) => if b != 0 {
                lemma_sector_copy_kept(st1, d, (b * 2) as u64, x.size, data);
                match sector_copy(st1, d, (b * 2) as u64, x.size, data) {
                    Some((Ok(data2), st2)) => {
                        lemma_sector_copy_kept(st2, d, (b * 2 + 1) as u64, x.size, data2);
                        match sector_copy(st2, d, (b * 2 + 1) as u64, x.size, data2) {
                            Some((Ok(data3), st3)) => {
                                lemma_data_kept(st3, d, x, i + 1, n, data3);
                                let (_, st4) = data_spec(st3, d, x, i + 1, n, data3)->0;
                                if coherent(st) && st4.0.len() < CACHE_SIZE {
                                    lemma_kept_trans(st, st1, st2);
                                    lemma_kept_trans(st, st2, st3);
                                    lemma_kept_trans(st, st3, st4);
                                }
                            },
                            Some((Err(_), st3)) => {
                                if coherent(st) && st3.0.len() < CACHE_SIZE {
                                    lemma_kept_trans(st, st1, st2);
                                    lemma_kept_trans(st, st2, st3);
                                }
                            },
                            None => {},
                        }
                    },
                    Some((Err(_), st2)) => {
                        if coherent(st) && st2.0.len() < CACHE_SIZE {
                            lemma_kept_trans(st, st1, st2);
                        }
                    },
                    None => {},
                }
            },
            _ => {},
        }
    }
}

/// Reading a file's bytes never shrinks the cache; without evicting it
/// keeps every view.
pub proof fn lemma_read_data_kept(st: Store, d: usize, x: InodeView)
    requires
        read_inode_data_spec(st, d, x) is Some,
    ensures
        read_inode_data_spec(st, d, x) matches Some((_, st1)) && st.0.len() <= st1.0.len()
            && (crate::fs::store::in_range(st) ==> crate::fs::store::in_range(st1))
            && (coherent(st) && st1.0.len() < CACHE_SIZE ==> kept(st, st1)),
{
    lemma_data_kept(st, d, x, 0, ((x.size + 1023) / 1024) as int, Seq::empty());
}

/// Writing blocks `i..n` never shrinks the cache; without evicting, each of
/// their sectors then reads as its chunk and every other sector of the
/// device as it was.
pub proof fn lemma_write_blocks_kept(st: Store, d: usize, x: InodeView, data: Seq<u8>, i: int, n: int)
    requires
        direct_blocks(x, n),
        0 <= i <= n,
        crate::fs::store::in_range(st),
        write_data_spec(st, d, x, data, i, n) matches Some((Ok(()), _)),
    ensures
        write_data_spec(st, d, x, data, i, n) matches Some((_, stw)) && st.0.len() <= stw.0.len()
            && crate::fs::store::in_range(stw) && (coherent(st) && stw.0.len() < CACHE_SIZE ==> {
            &&& coherent(stw)
            &&& stw.2 == st.2
            &&& forall|j: int, k: int| i <= j < n && 0 <= k < 2 ==> view_of(stw, d, (x.block[j] * 2 + k) as u64) == Some(#[trigger] chunk(data, j, k))
            &&& forall|s2: u64| !in_blocks(x, i, n, s2) ==> #[trigger] view_of(stw, d, s2) == view_of(st, d, s2)
        }),
    decreases n - i,
{
    if i < n {
        let b = x.block[i];
        let s0 = (b * 2) as u64;
        let s1 = (b * 2 + 1) as u64;
        let st2 = st_write(st, d, s0, chunk(data, i, 0));
        let st3 = st_write(st2, d, s1, chunk(data, i, 1));
        crate::fs::store::lemma_write_grows(st, d, s0, chunk(data, i, 0));
        crate::fs::store::lemma_write_grows(st2, d, s1, chunk(data, i, 1));
        lemma_write_blocks_kept(st3, d, x, data, i + 1, n);
        let (_, stw) = write_data_spec(st3, d, x, data, i + 1, n)->0;
        assert(write_data_spec(st, d, x, data, i, n) == write_data_spec(st3, d, x, data, i + 1, n));
        if coherent(st) && stw.0.len() < CACHE_SIZE {
            lemma_write_kept(st, d, s0, chunk(data, i, 0));
            lemma_write_kept(st2, d, s1, chunk(data, i, 1));
            assert(!in_blocks(x, i + 1, n, s0)) by {
                if in_blocks(x, i + 1, n, s0) {
                    let j = choose|j: int| i + 1 <= j < n && (s0 == (x.block[j] * 2) as u64 || s0 == (x.block[j] * 2 + 1) as u64);
                    assert(x.block[j] != x.block[i]);
                }
            }
            assert(!in_blocks(x, i + 1, n, s1)) by {
                if in_blocks(x, i + 1, n, s1) {
                    let j = choose|j: int| i + 1 <= j < n && (s1 == (x.block[j] * 2) as u64 || s1 == (x.block[j] * 2 + 1) as u64);
                    assert(x.block[j] != x.block[i]);
                }
            }
            assert forall|j: int, k: int| i <= j < n && 0 <= k < 2 implies view_of(stw, d, (x.block[j] * 2 + k) as u64) == Some(#[trigger] chunk(data, j, k)) by {
                if j == i {
                    if k == 0 {
                        assert(view_of(stw, d, s0) == view_of(st3, d, s0));
                        assert(view_of(st3, d, s0) == view_of(st2, d, s0));
                    } else {
                        assert(view_of(stw, d, s1) == view_of(st3, d, s1));
                    }
                }
            }
            assert forall|s2: u64| !in_blocks(x, i, n, s2) implies #[trigger] view_of(stw, d, s2) == view_of(st, d, s2) by {
                if in_blocks(x, i + 1, n, s2) {
                    let j = choose|j: int| i + 1 <= j < n && (s2 == (x.block[j] * 2) as u64 || s2 == (x.block[j] * 2 + 1) as u64);
                    assert(in_blocks(x, i, n, s2));
                }
                assert(s2 != s0 && s2 != s1) by {
                    if s2 == s0 || s2 == s1 {
                        assert(in_blocks(x, i, n, s2));
                    }
                }
                assert(view_of(stw, d, s2) == view_of(st3, d, s2));
                assert(view_of(st3, d, s2) == view_of(st2, d, s2));
            }
        }
    }
}

/// One sector of block `i` read on the way: the sector holds its chunk, so
/// the copy succeeds, keeps every view, and appends the data's bytes that
/// fall in that sector.
proof fn lemma_copy_chunk(st: Store, d: usize, x: InodeView, data: Seq<u8>, i: int, k: int, sector: u64, acc: Seq<u8>)
    requires
        coherent(st),
        0 <= i,
        0 <= k < 2,
        x.size == data.len(),
        i * 1024 < data.len(),
        acc == data.subrange(0, if i * 1024 + k * 512 < data.len() { i * 1024 + k * 512 } else { data.len() as int }),
        k == 1 ==> acc.len() == i * 1024 + 512 || acc.len() == data.len(),
        view_of(st, d, sector) == Some(chunk(data, i, k)),
        sector_copy(st, d, sector, x.size, acc) matches Some((_, st1)) && st1.0.len() < CACHE_SIZE,
    ensures
        sector_copy(st, d, sector, x.size, acc) matches Some((Ok(a2), st1)) && kept(st, st1) && a2 == data.subrange(
            0,
            if i * 1024 + k * 512 + 512 < data.len() { i * 1024 + k * 512 + 512 } else { data.len() as int },
        ),
{
    let len = data.len() as int;
    lemma_sector_copy_kept(st, d, sector, x.size, acc);
    lemma_read_view(st, d, sector);
    let (buf, st1) = st_read(st, d, sector)->0;
    lemma_read_step(st, d, sector);
    let rem = if x.size >= acc.len() { x.size - acc.len() } else { 0 };
    let c = if rem < 512 { rem } else { 512 };
    if acc.len() == len {
        assert(c == 0);
        assert(acc + buf.subrange(0, c) =~= acc);
        assert(acc =~= data.subrange(0, len));
    } else {
        assert(acc.len() == i * 1024 + k * 512);
        lemma_chunk_prefix(data, i, k, c);
        assert(acc + buf.subrange(0, c) =~= data.subrange(0, acc.len() + c));
    }
}

/// Reading blocks `i..n` whose sectors hold the data's chunks, without
/// evicting, gathers the rest of the data after the part already read.
pub proof fn lemma_read_blocks_kept(st: Store, d: usize, x: InodeView, data: Seq<u8>, i: int, n: int)
    requires
        coherent(st),
        direct_blocks(x, n),
        x.size == data.len(),
        n == (data.len() + 1023) / 1024,
        0 <= i <= n,
        forall|j: int, k: int| i <= j < n && 0 <= k < 2 ==> view_of(st, d, (x.block[j] * 2 + k) as u64) == Some(#[trigger] chunk(data, j, k)),
        data_spec(st, d, x, i, n, data.subrange(0, if i * 1024 < data.len() { i * 1024 } else { data.len() as int }))
            matches Some((_, stf)) && stf.0.len() < CACHE_SIZE,
    ensures
        data_spec(st, d, x, i, n, data.subrange(0, if i * 1024 < data.len() { i * 1024 } else { data.len() as int }))
            matches Some((Ok(r), _)) && r == data,
    decreases n - i,
{
    let len = data.len() as int;
    let acc = data.subrange(0, if i * 1024 < len { i * 1024 } else { len });
    if i >= n {
        assert(i * 1024 >= len);
        assert(acc =~= data);
    } else {
        assert(i * 1024 < len);
        let b = x.block[i];
        assert(block_number_spec(st, d, x, i) == Some((Ok::<u32, ()>(b), st)));
        let s0 = (b * 2) as u64;
        let s1 = (b * 2 + 1) as u64;
        lemma_sector_copy_kept(st, d, s0, x.size, acc);
        let (r1, st1) = sector_copy(st, d, s0, x.size, acc)->0;
        lemma_data_kept(st, d, x, i, n, acc);
        match r1 {
            Err(_) => {
                lemma_read_view(st, d, s0);
                assert(view_of(st, d, s0) == Some(chunk(data, i, 0)));
                assert(false);
            },
            Ok(acc2) => {
                lemma_sector_copy_kept(st1, d, s1, x.size, acc2);
                let (r2, st2) = sector_copy(st1, d, s1, x.size, acc2)->0;
                match r2 {
                    Err(_) => {
                        assert(st1.0.len() < CACHE_SIZE);
                        lemma_copy_chunk(st, d, x, data, i, 0, s0, acc);
                        lemma_read_view(st1, d, s1);
                        assert(view_of(st1, d, s1) == view_of(st, d, s1));
                        assert(view_of(st, d, s1) == Some(chunk(data, i, 1)));
                        assert(false);
                    },
                    Ok(acc3) => {
                        lemma_data_kept(st2, d, x, i + 1, n, acc3);
                        lemma_copy_chunk(st, d, x, data, i, 0, s0, acc);
                        assert(view_of(st1, d, s1) == view_of(st, d, s1));
                        assert(view_of(st, d, s1) == Some(chunk(data, i, 1)));
                        lemma_copy_chunk(st1, d, x, data, i, 1, s1, acc2);
                        let next = if (i + 1) * 1024 < len { (i + 1) * 1024 } else { len };
                        assert(acc3 == data.subrange(0, next));
                        assert forall|j: int, k: int| i + 1 <= j < n && 0 <= k < 2 implies view_of(st2, d, (x.block[j] * 2 + k) as u64) == Some(#[trigger] chunk(data, j, k)) by {
                            let sj = (x.block[j] * 2 + k) as u64;
                            assert(view_of(st2, d, sj) == view_of(st1, d, sj));
                            assert(view_of(st1, d, sj) == view_of(st, d, sj));
                        }
                        lemma_read_blocks_kept(st2, d, x, data, i + 1, n);
                    },
                }
            },
        }
    }
}

} // verus!
