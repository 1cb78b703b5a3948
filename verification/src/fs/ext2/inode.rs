use vstd::prelude::*;
use crate::fs::ext2::layout::{get_u16, get_u32, lemma_put16, lemma_put32, lemma_put_bytes, put16, put32, put_bytes, put_u16, put_u32};
use crate::fs::ext2::superblock::{SUPERBLOCK_SECTOR, Superblock, read_superblock, read_superblock_spec, sb_parse, lemma_superblock_kept};
use crate::fs::cache::CACHE_SIZE;
use crate::fs::store::{
    Storage, Store, coherent, kept, lemma_kept_refl, lemma_kept_trans, lemma_read_kept, lemma_read_step, lemma_read_view, lemma_write_kept,
    lemma_write_view, st_fits, st_read, st_write, view_of,
};
use crate::wayland::protocol::{wire_u16, wire_u32};

verus! {

/// Bytes an inode takes on disk.
pub const INODE_DISK_SIZE: usize = 136;
/// Spacing of inodes in the inode table.
pub const INODE_SIZE: u32 = 128;

/// An ext2 inode, laid out on disk in field order with natural alignment
/// (two padding bytes after `mode` and after `links_count`).
#[derive(Clone, Copy)]
pub struct Inode {
    pub mode: u16,
    pub uid: u32,
    pub size: u32,
    pub atime: u32,
    pub ctime: u32,
    pub mtime: u32,
    pub dtime: u32,
    pub gid: u32,
    pub links_count: u16,
    pub blocks: u32,
    pub flags: u32,
    pub osd1: u32,
    pub block: [u32; 15],
    pub generation: u32,
    pub file_acl: u32,
    pub dir_acl: u32,
    pub faddr: u32,
    pub osd2: [u8; 12],
}

/// An inode as values.
pub struct InodeView {
    pub mode: u16,
    pub uid: u32,
    pub size: u32,
    pub atime: u32,
    pub ctime: u32,
    pub mtime: u32,
    pub dtime: u32,
    pub gid: u32,
    pub links_count: u16,
    pub blocks: u32,
    pub flags: u32,
    pub osd1: u32,
    pub block: Seq<u32>,
    pub generation: u32,
    pub file_acl: u32,
    pub dir_acl: u32,
    pub faddr: u32,
    pub osd2: Seq<u8>,
}

impl Inode {
    pub open spec fn view(&self) -> InodeView {
        InodeView {
            mode: self.mode,
            uid: self.uid,
            size: self.size,
            atime: self.atime,
            ctime: self.ctime,
            mtime: self.mtime,
            dtime: self.dtime,
            gid: self.gid,
            links_count: self.links_count,
            blocks: self.blocks,
            flags: self.flags,
            osd1: self.osd1,
            block: self.block@,
            generation: self.generation,
            file_acl: self.file_acl,
            dir_acl: self.dir_acl,
            faddr: self.faddr,
            osd2: self.osd2@,
        }
    }
}

/// The inode laid out at byte `off` of `b`.
pub open spec fn ino_parse(b: Seq<u8>, off: int) -> InodeView {
    InodeView {
        mode: wire_u16(b, off + 0),
        uid: wire_u32(b, off + 4),
        size: wire_u32(b, off + 8),
        atime: wire_u32(b, off + 12),
        ctime: wire_u32(b, off + 16),
        mtime: wire_u32(b, off + 20),
        dtime: wire_u32(b, off + 24),
        gid: wire_u32(b, off + 28),
        links_count: wire_u16(b, off + 32),
        blocks: wire_u32(b, off + 36),
        flags: wire_u32(b, off + 40),
        osd1: wire_u32(b, off + 44),
        block: Seq::new(15, |k: int| wire_u32(b, off + 48 + 4 * k)),
        generation: wire_u32(b, off + 108),
        file_acl: wire_u32(b, off + 112),
        dir_acl: wire_u32(b, off + 116),
        faddr: wire_u32(b, off + 120),
        osd2: b.subrange(off + 124, off + 136),
    }
}

/// `s` with the inode `v` laid out at `off`, padding zeroed.
#[verifier::opaque]
pub open spec fn ino_put(s: Seq<u8>, off: int, v: InodeView) -> Seq<u8> {
    let b = s;
    let b = put16(b, off + 0, v.mode);
    let b = put16(b, off + 2, 0u16);
    let b = put32(b, off + 4, v.uid);
    let b = put32(b, off + 8, v.size);
    let b = put32(b, off + 12, v.atime);
    let b = put32(b, off + 16, v.ctime);
    let b = put32(b, off + 20, v.mtime);
    let b = put32(b, off + 24, v.dtime);
    let b = put32(b, off + 28, v.gid);
    let b = put16(b, off + 32, v.links_count);
    let b = put16(b, off + 34, 0u16);
    let b = put32(b, off + 36, v.blocks);
    let b = put32(b, off + 40, v.flags);
    let b = put32(b, off + 44, v.osd1);
    let b = put32(b, off + 48, v.block[0]);
    let b = put32(b, off + 52, v.block[1]);
    let b = put32(b, off + 56, v.block[2]);
    let b = put32(b, off + 60, v.block[3]);
    let b = put32(b, off + 64, v.block[4]);
    let b = put32(b, off + 68, v.block[5]);
    let b = put32(b, off + 72, v.block[6]);
    let b = put32(b, off + 76, v.block[7]);
    let b = put32(b, off + 80, v.block[8]);
    let b = put32(b, off + 84, v.block[9]);
    let b = put32(b, off + 88, v.block[10]);
    let b = put32(b, off + 92, v.block[11]);
    let b = put32(b, off + 96, v.block[12]);
    let b = put32(b, off + 100, v.block[13]);
    let b = put32(b, off + 104, v.block[14]);
    let b = put32(b, off + 108, v.generation);
    let b = put32(b, off + 112, v.file_acl);
    let b = put32(b, off + 116, v.dir_acl);
    let b = put32(b, off + 120, v.faddr);
    put_bytes(b, off + 124, v.osd2)
}

/// Reads the inode at byte `off` of a sector buffer.
pub fn parse_inode(buf: &[u8; 512], off: usize) -> (inode: Inode)
    requires
        off + INODE_DISK_SIZE <= 512,
    ensures
        inode@ == ino_parse(buf@, off as int),
{
    let mut block = [0u32; 15];
    let mut k: usize = 0;
    while k < 15
        invariant
            k <= 15,
            off + INODE_DISK_SIZE <= 512,
            forall|j: int| 0 <= j < k ==> block@[j] == wire_u32(buf@, off + 48 + 4 * j),
        decreases 15 - k,
    {
        block[k] = get_u32(buf, off + 48 + 4 * k);
        k += 1;
    }
    let mut osd2 = [0u8; 12];
    let mut j: usize = 0;
    while j < 12
        invariant
            j <= 12,
            off + INODE_DISK_SIZE <= 512,
            forall|i: int| 0 <= i < j ==> osd2@[i] == buf@[off + 124 + i],
        decreases 12 - j,
    {
        osd2[j] = buf[off + 124 + j];
        j += 1;
    }
    proof {
        assert(block@ =~= Seq::new(15, |k: int| wire_u32(buf@, off + 48 + 4 * k)));
        assert(osd2@ =~= buf@.subrange(off + 124, off + 136));
    }
    Inode {
        mode: get_u16(buf, off + 0),
        uid: get_u32(buf, off + 4),
        size: get_u32(buf, off + 8),
        atime: get_u32(buf, off + 12),
        ctime: get_u32(buf, off + 16),
        mtime: get_u32(buf, off + 20),
        dtime: get_u32(buf, off + 24),
        gid: get_u32(buf, off + 28),
        links_count: get_u16(buf, off + 32),
        blocks: get_u32(buf, off + 36),
        flags: get_u32(buf, off + 40),
        osd1: get_u32(buf, off + 44),
        block,
        generation: get_u32(buf, off + 108),
        file_acl: get_u32(buf, off + 112),
        dir_acl: get_u32(buf, off + 116),
        faddr: get_u32(buf, off + 120),
        osd2,
    }
}

/// Lays an inode out at byte `off` of a sector buffer.
pub fn inode_to_bytes(inode: &Inode, buf: &mut [u8; 512], off: usize)
    requires
        off + INODE_DISK_SIZE <= 512,
    ensures
        final(buf)@ == ino_put(old(buf)@, off as int, inode@),
{
    put_u16(buf, off + 0, inode.mode);
    put_u16(buf, off + 2, 0u16);
    put_u32(buf, off + 4, inode.uid);
    put_u32(buf, off + 8, inode.size);
    put_u32(buf, off + 12, inode.atime);
    put_u32(buf, off + 16, inode.ctime);
    put_u32(buf, off + 20, inode.mtime);
    put_u32(buf, off + 24, inode.dtime);
    put_u32(buf, off + 28, inode.gid);
    put_u16(buf, off + 32, inode.links_count);
    put_u16(buf, off + 34, 0u16);
    put_u32(buf, off + 36, inode.blocks);
    put_u32(buf, off + 40, inode.flags);
    put_u32(buf, off + 44, inode.osd1);
    put_u32(buf, off + 48, inode.block[0]);
    put_u32(buf, off + 52, inode.block[1]);
    put_u32(buf, off + 56, inode.block[2]);
    put_u32(buf, off + 60, inode.block[3]);
    put_u32(buf, off + 64, inode.block[4]);
    put_u32(buf, off + 68, inode.block[5]);
    put_u32(buf, off + 72, inode.block[6]);
    put_u32(buf, off + 76, inode.block[7]);
    put_u32(buf, off + 80, inode.block[8]);
    put_u32(buf, off + 84, inode.block[9]);
    put_u32(buf, off + 88, inode.block[10]);
    put_u32(buf, off + 92, inode.block[11]);
    put_u32(buf, off + 96, inode.block[12]);
    put_u32(buf, off + 100, inode.block[13]);
    put_u32(buf, off + 104, inode.block[14]);
    put_u32(buf, off + 108, inode.generation);
    put_u32(buf, off + 112, inode.file_acl);
    put_u32(buf, off + 116, inode.dir_acl);
    put_u32(buf, off + 120, inode.faddr);
    let ghost before = buf@;
    let mut j: usize = 0;
    while j < 12
        invariant
            j <= 12,
            off + INODE_DISK_SIZE <= 512,
            buf@.len() == 512,
            forall|i: int| 0 <= i < j ==> buf@[off + 124 + i] == inode.osd2@[i],
            forall|i: int| 0 <= i < 512 && !(off + 124 <= i < off + 124 + j) ==> buf@[i] == before[i],
        decreases 12 - j,
    {
        buf[off + 124 + j] = inode.osd2[j];
        j += 1;
    }
    proof {
        assert(buf@ =~= put_bytes(before, off + 124, inode.osd2@));
        reveal(ino_put);
    }
}

/// Parsing what `ino_put` laid out gives the inode back.
pub proof fn lemma_inode_roundtrip(s: Seq<u8>, off: int, v: InodeView)
    requires
        0 <= off,
        off + 136 <= s.len(),
        v.block.len() == 15,
        v.osd2.len() == 12,
    ensures
        ino_parse(ino_put(s, off, v), off) == v,
        ino_put(s, off, v).len() == s.len(),
{
    reveal(ino_put);
    let b0 = s;
    let b1 = put16(b0, off + 0, v.mode);
    lemma_put16(b0, off + 0, v.mode);
    let b2 = put16(b1, off + 2, 0u16);
    lemma_put16(b1, off + 2, 0u16);
    let b3 = put32(b2, off + 4, v.uid);
    lemma_put32(b2, off + 4, v.uid);
    let b4 = put32(b3, off + 8, v.size);
    lemma_put32(b3, off + 8, v.size);
    let b5 = put32(b4, off + 12, v.atime);
    lemma_put32(b4, off + 12, v.atime);
    let b6 = put32(b5, off + 16, v.ctime);
    lemma_put32(b5, off + 16, v.ctime);
    let b7 = put32(b6, off + 20, v.mtime);
    lemma_put32(b6, off + 20, v.mtime);
    let b8 = put32(b7, off + 24, v.dtime);
    lemma_put32(b7, off + 24, v.dtime);
    let b9 = put32(b8, off + 28, v.gid);
    lemma_put32(b8, off + 28, v.gid);
    let b10 = put16(b9, off + 32, v.links_count);
    lemma_put16(b9, off + 32, v.links_count);
    let b11 = put16(b10, off + 34, 0u16);
    lemma_put16(b10, off + 34, 0u16);
    let b12 = put32(b11, off + 36, v.blocks);
    lemma_put32(b11, off + 36, v.blocks);
    let b13 = put32(b12, off + 40, v.flags);
    lemma_put32(b12, off + 40, v.flags);
    let b14 = put32(b13, off + 44, v.osd1);
    lemma_put32(b13, off + 44, v.osd1);
    let b15 = put32(b14, off + 48, v.block[0]);
    lemma_put32(b14, off + 48, v.block[0]);
    let b16 = put32(b15, off + 52, v.block[1]);
    lemma_put32(b15, off + 52, v.block[1]);
    let b17 = put32(b16, off + 56, v.block[2]);
    lemma_put32(b16, off + 56, v.block[2]);
    let b18 = put32(b17, off + 60, v.block[3]);
    lemma_put32(b17, off + 60, v.block[3]);
    let b19 = put32(b18, off + 64, v.block[4]);
    lemma_put32(b18, off + 64, v.block[4]);
    let b20 = put32(b19, off + 68, v.block[5]);
    lemma_put32(b19, off + 68, v.block[5]);
    let b21 = put32(b20, off + 72, v.block[6]);
    lemma_put32(b20, off + 72, v.block[6]);
    let b22 = put32(b21, off + 76, v.block[7]);
    lemma_put32(b21, off + 76, v.block[7]);
    let b23 = put32(b22, off + 80, v.block[8]);
    lemma_put32(b22, off + 80, v.block[8]);
    let b24 = put32(b23, off + 84, v.block[9]);
    lemma_put32(b23, off + 84, v.block[9]);
    let b25 = put32(b24, off + 88, v.block[10]);
    lemma_put32(b24, off + 88, v.block[10]);
    let b26 = put32(b25, off + 92, v.block[11]);
    lemma_put32(b25, off + 92, v.block[11]);
    let b27 = put32(b26, off + 96, v.block[12]);
    lemma_put32(b26, off + 96, v.block[12]);
    let b28 = put32(b27, off + 100, v.block[13]);
    lemma_put32(b27, off + 100, v.block[13]);
    let b29 = put32(b28, off + 104, v.block[14]);
    lemma_put32(b28, off + 104, v.block[14]);
    let b30 = put32(b29, off + 108, v.generation);
    lemma_put32(b29, off + 108, v.generation);
    let b31 = put32(b30, off + 112, v.file_acl);
    lemma_put32(b30, off + 112, v.file_acl);
    let b32 = put32(b31, off + 116, v.dir_acl);
    lemma_put32(b31, off + 116, v.dir_acl);
    let b33 = put32(b32, off + 120, v.faddr);
    lemma_put32(b32, off + 120, v.faddr);
    let bf = put_bytes(b33, off + 124, v.osd2);
    assert forall|o: int| 0 <= o && o + 4 <= off + 124 implies #[trigger] wire_u32(bf, o) == wire_u32(b33, o) by {
        lemma_put_bytes(b33, off + 124, v.osd2, o, 4);
    }
    assert forall|o: int| 0 <= o && o + 2 <= off + 124 implies #[trigger] wire_u16(bf, o) == wire_u16(b33, o) by {
        lemma_put_bytes(b33, off + 124, v.osd2, o, 2);
    }
    lemma_put_bytes(b33, off + 124, v.osd2, off + 124, 12);
    assert(v.osd2.subrange(0, 12) =~= v.osd2);
    assert(bf == ino_put(s, off, v));
    assert(ino_parse(bf, off).block =~= v.block);
    assert(ino_parse(bf, off).osd2 =~= v.osd2);
}

/// The sector of the group descriptor of `group`, and the descriptor's
/// byte offset in it.
pub open spec fn bgd_location(group: u32) -> (u64, int) {
    ((4 + group / 16) as u64, ((group % 16) * 32) as int)
}

/// The `u32` at byte `field` of the group descriptor of `group`, read
/// through the cache; `None` when the device cannot give its sector.
pub open spec fn bgd_field_spec(st: Store, d: usize, group: u32, field: int) -> Option<(u32, Store)> {
    let (sector, off) = bgd_location(group);
    if !st_fits(st, d, sector) {
        None
    } else {
        match st_read(st, d, sector) {
            Some((b, st1)) => Some((wire_u32(b, off + field), st1)),
            None => None,
        }
    }
}

/// Reads the `u32` at byte `field` (0, 4 or 8) of the group descriptor of
/// `group`; the device must give its sector.
pub fn read_bgd_field(storage: &mut Storage, device: usize, group: u32, field: usize) -> (v: u32)
    requires
        old(storage).wf(),
        field <= 8,
        bgd_field_spec(old(storage).store(), device, group, field as int) is Some,
    ensures
        final(storage).wf(),
        bgd_field_spec(old(storage).store(), device, group, field as int) == Some((v, final(storage).store())),
{
    let bgd_block = 4 + (group / 16);
    let offset = ((group % 16) * 32) as usize;
    match storage.read(device, bgd_block as u64) {
        Ok(buffer) => get_u32(&buffer, offset + field),
        Err(_) => {
            proof {
                assert(false);
            }
            0
        },
    }
}

/// The block of the inode table of `group`.
pub fn get_inode_table(storage: &mut Storage, device: usize, group: u32) -> (t: u32)
    requires
        old(storage).wf(),
        bgd_field_spec(old(storage).store(), device, group, 8) is Some,
    ensures
        final(storage).wf(),
        bgd_field_spec(old(storage).store(), device, group, 8) == Some((t, final(storage).store())),
{
    read_bgd_field(storage, device, group, 8)
}

/// Where inode `n` lies: the sector of the inode table and the byte offset
/// in it; `None` when the superblock or the group descriptor cannot be
/// read, or finding the inode divides by zero, overflows, or it runs past
/// the end of its sector.
pub open spec fn inode_location(st: Store, d: usize, n: u32) -> Option<(u64, int, Store)> {
    match read_superblock_spec(st, d) {
        None => None,
        Some((sb, st1)) => {
            let ipg = sb.inodes_per_group;
            if n == 0 || ipg == 0 {
                None
            } else {
                let group = ((n - 1) / (ipg as int)) as u32;
                let index = (n - 1) % (ipg as int);
                match bgd_field_spec(st1, d, group, 8) {
                    None => None,
                    Some((table, st2)) => {
                        let block_offset = (index * 128) / 512;
                        let byte_offset = (index * 128) % 512;
                        if index * 128 > u32::MAX || table + block_offset > u32::MAX || byte_offset + 136 > 512 {
                            None
                        } else {
                            Some(((table + block_offset) as u64, byte_offset, st2))
                        }
                    },
                }
            }
        },
    }
}

/// Inode `n` as read through the cache, and the store after: an error when
/// the device cannot give the inode's sector; `None` when locating it
/// fails or reading the sector would overflow.
pub open spec fn read_inode_spec(st: Store, d: usize, n: u32) -> Option<(Result<InodeView, ()>, Store)> {
    match inode_location(st, d, n) {
        None => None,
        Some((sector, off, st2)) => if !st_fits(st2, d, sector) {
            None
        } else {
            match st_read(st2, d, sector) {
                None => Some((Err(()), st2)),
                Some((b, st3)) => Some((Ok(ino_parse(b, off)), st3)),
            }
        },
    }
}

/// The store after inode `n` is written (its sector is read first): an
/// error when the device cannot give that sector.
pub open spec fn write_inode_spec(st: Store, d: usize, n: u32, v: InodeView) -> Option<(Result<(), ()>, Store)> {
    match inode_location(st, d, n) {
        None => None,
        Some((sector, off, st2)) => if !st_fits(st2, d, sector) {
            None
        } else {
            match st_read(st2, d, sector) {
                None => Some((Err(()), st2)),
                Some((b, st3)) => Some((Ok(()), st_write(st3, d, sector, ino_put(b, off, v)))),
            }
        },
    }
}

/// Finds inode `n`: its sector and byte offset.
fn locate_inode(storage: &mut Storage, device: usize, n: u32) -> (r: (u64, usize))
    requires
        old(storage).wf(),
        inode_location(old(storage).store(), device, n) is Some,
    ensures
        final(storage).wf(),
        inode_location(old(storage).store(), device, n) == Some((r.0, r.1 as int, final(storage).store())),
        r.1 + INODE_DISK_SIZE <= 512,
{
    let sb = read_superblock(storage, device);
    let inodes_per_group = sb.inodes_per_group();
    let inode_size: u32 = INODE_SIZE;
    let group = (n - 1) / inodes_per_group;
    let index = (n - 1) % inodes_per_group;
    let inode_table_block = get_inode_table(storage, device, group);
    let block_offset = (index * inode_size) / 512;
    let byte_offset = ((index * inode_size) % 512) as usize;
    ((inode_table_block + block_offset) as u64, byte_offset)
}

/// Reads inode `n` (see `read_inode_spec`).
pub fn read_inode(storage: &mut Storage, device: usize, n: u32) -> (r: Result<Inode, ()>)
    requires
        old(storage).wf(),
        read_inode_spec(old(storage).store(), device, n) is Some,
    ensures
        final(storage).wf(),
        read_inode_spec(old(storage).store(), device, n) == Some((
            match r {
                Ok(i) => Ok::<InodeView, ()>(i@),
                Err(e) => Err::<InodeView, ()>(e),
            },
            final(storage).store(),
        )),
{
    let (sector, off) = locate_inode(storage, device, n);
    match storage.read(device, sector) {
        Ok(buffer) => Ok(parse_inode(&buffer, off)),
        Err(e) => Err(e),
    }
}

/// Writes inode `n` (see `write_inode_spec`).
pub fn write_inode(storage: &mut Storage, device: usize, n: u32, inode: &Inode) -> (r: Result<(), ()>)
    requires
        old(storage).wf(),
        write_inode_spec(old(storage).store(), device, n, inode@) is Some,
    ensures
        final(storage).wf(),
        write_inode_spec(old(storage).store(), device, n, inode@) == Some((r, final(storage).store())),
{
    let (sector, off) = locate_inode(storage, device, n);
    let mut buffer = match storage.read(device, sector) {
        Ok(b) => b,
        Err(e) => {
            return Err(e);
        },
    };
    inode_to_bytes(inode, &mut buffer, off);
    storage.write(device, sector, &buffer);
    Ok(())
}

/// Every sector of device `d` reads as 512 bytes.
pub open spec fn sectors_whole(st: Store, d: usize) -> bool {
    forall|s: u64| #[trigger] view_of(st, d, s) matches Some(b) ==> b.len() == 512
}

/// Inode `n` lies in a sector of its own table: neither the superblock's
/// nor that of its group's descriptor.
pub open spec fn inode_apart(st: Store, d: usize, n: u32) -> bool {
    match read_superblock_spec(st, d) {
        Some((sb, _)) => sb.inodes_per_group != 0 && n != 0 && match inode_location(st, d, n) {
            Some((sec, _, _)) => sec != SUPERBLOCK_SECTOR
                && sec != bgd_location(((n - 1) / (sb.inodes_per_group as int)) as u32).0,
            None => false,
        },
        None => false,
    }
}

/// Reading back an inode gives what was written: after inode `n` is
/// written with `v`, reading inode `n` gives `v`. This holds while the
/// cache has room for the sectors the two calls read (no eviction) and its
/// index names the entry of each sector it holds, when the device's
/// sectors are whole, and when the inode's sector is neither the
/// superblock's nor its group descriptor's.
pub proof fn lemma_inode_write_then_read(st: Store, d: usize, n: u32, v: InodeView)
    requires
        coherent(st),
        st.0.len() + 8 <= CACHE_SIZE,
        sectors_whole(st, d),
        inode_apart(st, d, n),
        v.block.len() == 15,
        v.osd2.len() == 12,
        write_inode_spec(st, d, n, v) matches Some((Ok(()), _)),
    ensures
        write_inode_spec(st, d, n, v) matches Some((_, st1)) && read_inode_spec(st1, d, n) matches Some((Ok(x), _)) && x == v,
{
    let sp = SUPERBLOCK_SECTOR;
    lemma_read_view(st, d, sp);
    let (b0, s1) = st_read(st, d, sp)->0;
    let sb = sb_parse(b0);
    let ipg = sb.inodes_per_group;
    let group = ((n - 1) / (ipg as int)) as u32;
    let bsec = bgd_location(group).0;
    lemma_read_view(s1, d, bsec);
    let (b1, s2) = st_read(s1, d, bsec)->0;
    assert(view_of(s1, d, bsec) == view_of(st, d, bsec));
    let (sec, off, s2x) = inode_location(st, d, n)->0;
    assert(s2x == s2);
    lemma_read_view(s2, d, sec);
    let (b, s3) = st_read(s2, d, sec)->0;
    assert(view_of(s2, d, sec) == view_of(s1, d, sec));
    assert(view_of(s1, d, sec) == view_of(st, d, sec));
    assert(b.len() == 512);
    let put = ino_put(b, off, v);
    let stw = st_write(s3, d, sec, put);
    lemma_write_view(s3, d, sec, put);
    assert(write_inode_spec(st, d, n, v) == Some((Ok::<(), ()>(()), stw)));
    // reading back: the superblock and the descriptor read as before
    assert(view_of(stw, d, sp) == view_of(s3, d, sp));
    assert(view_of(s3, d, sp) == view_of(s2, d, sp));
    assert(view_of(s2, d, sp) == view_of(s1, d, sp));
    assert(view_of(s1, d, sp) == view_of(st, d, sp));
    lemma_read_view(stw, d, sp);
    let (c0, t1) = st_read(stw, d, sp)->0;
    assert(c0 == b0);
    assert(read_superblock_spec(stw, d) == Some((sb, t1)));
    lemma_read_view(t1, d, bsec);
    assert(view_of(t1, d, bsec) == view_of(stw, d, bsec));
    assert(view_of(stw, d, bsec) == view_of(s3, d, bsec));
    assert(view_of(s3, d, bsec) == view_of(s2, d, bsec));
    assert(view_of(s2, d, bsec) == view_of(s1, d, bsec));
    let (c1, t2) = st_read(t1, d, bsec)->0;
    assert(c1 == b1);
    assert(inode_location(stw, d, n) == Some((sec, off, t2)));
    lemma_read_view(t2, d, sec);
    assert(view_of(t2, d, sec) == view_of(t1, d, sec));
    assert(view_of(t1, d, sec) == view_of(stw, d, sec));
    let (c, t3) = st_read(t2, d, sec)->0;
    assert(c == put);
    lemma_inode_roundtrip(b, off, v);
}

/// Where inode `n` lies, from the views of the superblock and group
/// descriptor sectors: its sector and byte offset.
pub open spec fn location_by_views(st: Store, d: usize, n: u32) -> Option<(u64, int)> {
    match view_of(st, d, SUPERBLOCK_SECTOR) {
        None => None,
        Some(b0) => {
            let ipg = sb_parse(b0).inodes_per_group;
            if n == 0 || ipg == 0 {
                None
            } else {
                let group = ((n - 1) / (ipg as int)) as u32;
                let index = (n - 1) % (ipg as int);
                let (bsec, boff) = bgd_location(group);
                match view_of(st, d, bsec) {
                    None => None,
                    Some(b1) => {
                        let table = wire_u32(b1, boff + 8);
                        let block_offset = (index * 128) / 512;
                        let byte_offset = (index * 128) % 512;
                        if index * 128 > u32::MAX || table + block_offset > u32::MAX || byte_offset + 136 > 512 {
                            None
                        } else {
                            Some(((table + block_offset) as u64, byte_offset))
                        }
                    },
                }
            }
        },
    }
}

/// The sector of the group descriptor that locates inode `n`, from the
/// superblock sector's view.
pub open spec fn bgd_sector_by_views(st: Store, d: usize, n: u32) -> Option<u64> {
    match view_of(st, d, SUPERBLOCK_SECTOR) {
        None => None,
        Some(b0) => {
            let ipg = sb_parse(b0).inodes_per_group;
            if n == 0 || ipg == 0 { None } else { Some(bgd_location(((n - 1) / (ipg as int)) as u32).0) }
        },
    }
}

/// Locating an inode never shrinks the cache; without evicting it keeps
/// every view and finds the place the views give.
pub proof fn lemma_location_kept(st: Store, d: usize, n: u32)
    requires
        inode_location(st, d, n) is Some,
    ensures
        inode_location(st, d, n) matches Some((sec, off, st1)) && st.0.len() <= st1.0.len()
            && (crate::fs::store::in_range(st) ==> crate::fs::store::in_range(st1))
            && (coherent(st) && st1.0.len() < CACHE_SIZE ==> kept(st, st1) && location_by_views(st, d, n) == Some((sec, off))),
{
    let (sb, s1) = read_superblock_spec(st, d)->0;
    let ipg = sb.inodes_per_group;
    let group = ((n - 1) / (ipg as int)) as u32;
    let (bsec, boff) = bgd_location(group);
    let (table, s2) = bgd_field_spec(s1, d, group, 8)->0;
    lemma_superblock_kept(st, d);
    lemma_read_step(s1, d, bsec);
    if coherent(st) && s2.0.len() < CACHE_SIZE {
        lemma_kept_trans(st, s1, s2);
    }
}

/// Reading an inode never shrinks the cache; without evicting it keeps
/// every view, and a successful read parses the inode's bytes in its
/// sector's view.
pub proof fn lemma_read_inode_kept(st: Store, d: usize, n: u32)
    requires
        read_inode_spec(st, d, n) is Some,
    ensures
        read_inode_spec(st, d, n) matches Some((r, st1)) && st.0.len() <= st1.0.len()
            && (crate::fs::store::in_range(st) ==> crate::fs::store::in_range(st1))
            && (coherent(st) && st1.0.len() < CACHE_SIZE ==> kept(st, st1)
            && (location_by_views(st, d, n) matches Some((sec, off)) && (r matches Ok(x) ==> (
            view_of(st, d, sec) matches Some(b) && x == ino_parse(b, off))) && (r is Err ==> view_of(st, d, sec) is None))),
{
    let (sec, off, s2) = inode_location(st, d, n)->0;
    lemma_location_kept(st, d, n);
    match st_read(s2, d, sec) {
        None => {
            if coherent(st) && s2.0.len() < CACHE_SIZE {
                lemma_read_view(s2, d, sec);
            }
        },
        Some((b, s3)) => {
            lemma_read_step(s2, d, sec);
            if coherent(st) && s3.0.len() < CACHE_SIZE {
                lemma_kept_trans(st, s2, s3);
            }
        },
    }
}

/// Writing an inode without evicting: the inode's sector takes the inode
/// laid into its old view, and no other view changes.
pub proof fn lemma_write_inode_views(st: Store, d: usize, n: u32, v: InodeView)
    requires
        coherent(st),
        write_inode_spec(st, d, n, v) matches Some((Ok(()), st1)) && st1.0.len() < CACHE_SIZE,
    ensures
        write_inode_spec(st, d, n, v) matches Some((_, st1)) && (location_by_views(st, d, n) matches Some((sec, off))
            && (view_of(st, d, sec) matches Some(b) && {
            &&& coherent(st1)
            &&& st1.2 == st.2
            &&& view_of(st1, d, sec) == Some(ino_put(b, off, v))
            &&& forall|s2: u64| s2 != sec ==> #[trigger] view_of(st1, d, s2) == view_of(st, d, s2)
        })),
{
    let (sec, off, s2) = inode_location(st, d, n)->0;
    let (b, s3) = st_read(s2, d, sec)->0;
    let st1 = st_write(s3, d, sec, ino_put(b, off, v));
    lemma_location_in_range(st, d, n);
    crate::fs::store::lemma_read_in_range(s2, d, sec);
    crate::fs::store::lemma_write_grows(s3, d, sec, ino_put(b, off, v));
    lemma_read_step(s2, d, sec);
    lemma_location_kept(st, d, n);
    lemma_write_kept(s3, d, sec, ino_put(b, off, v));
    lemma_kept_trans(st, s2, s3);
    assert forall|s4: u64| s4 != sec implies #[trigger] view_of(st1, d, s4) == view_of(st, d, s4) by {
        assert(view_of(st1, d, s4) == view_of(s3, d, s4));
    }
}

/// Locating an inode keeps the cache index inside its entries.
proof fn lemma_location_in_range(st: Store, d: usize, n: u32)
    requires
        crate::fs::store::in_range(st),
        inode_location(st, d, n) is Some,
    ensures
        inode_location(st, d, n) matches Some((_, _, st1)) && crate::fs::store::in_range(st1),
{
    let (sb, s1) = read_superblock_spec(st, d)->0;
    let group = ((n - 1) / (sb.inodes_per_group as int)) as u32;
    crate::fs::store::lemma_read_in_range(st, d, SUPERBLOCK_SECTOR);
    crate::fs::store::lemma_read_in_range(s1, d, bgd_location(group).0);
}

} // verus!
