use vstd::prelude::*;
use crate::fs::ext2::layout::{get_u16, get_u32, lemma_put16, lemma_put32, put16, put32, put_u16, put_u32, zeros};
use crate::fs::cache::CACHE_SIZE;
use crate::fs::store::{Storage, Store, coherent, kept, lemma_read_step, st_fits, st_read, st_write, view_of};
use crate::wayland::protocol::{wire_u16, wire_u32};

verus! {

/// The sector that holds the superblock (bytes 1024 to 1535 of the device).
pub const SUPERBLOCK_SECTOR: u64 = 2;

/// The ext2 superblock, as its first 84 bytes lay it out (little-endian).
#[derive(Clone, Copy)]
pub struct Superblock {
    pub inodes_count: u32,
    pub blocks_count: u32,
    pub reserved_blocks: u32,
    pub free_blocks: u32,
    pub free_inodes: u32,
    pub first_data_block: u32,
    pub log_block_size: u32,
    pub log_frag_size: u32,
    pub blocks_per_group: u32,
    pub frags_per_group: u32,
    pub inodes_per_group: u32,
    pub mtime: u32,
    pub wtime: u32,
    pub mnt_count: u16,
    pub max_mnt_count: u16,
    pub magic: u16,
    pub state: u16,
    pub errors: u16,
    pub minor_rev: u16,
    pub lastcheck: u32,
    pub checkinterval: u32,
    pub creator_os: u32,
    pub rev_level: u32,
    pub def_resuid: u16,
    pub def_resgid: u16,
}

/// The superblock laid out at the start of a sector.
pub open spec fn sb_parse(b: Seq<u8>) -> Superblock {
    Superblock {
        inodes_count: wire_u32(b, 0int),
        blocks_count: wire_u32(b, 4int),
        reserved_blocks: wire_u32(b, 8int),
        free_blocks: wire_u32(b, 12int),
        free_inodes: wire_u32(b, 16int),
        first_data_block: wire_u32(b, 20int),
        log_block_size: wire_u32(b, 24int),
        log_frag_size: wire_u32(b, 28int),
        blocks_per_group: wire_u32(b, 32int),
        frags_per_group: wire_u32(b, 36int),
        inodes_per_group: wire_u32(b, 40int),
        mtime: wire_u32(b, 44int),
        wtime: wire_u32(b, 48int),
        mnt_count: wire_u16(b, 52int),
        max_mnt_count: wire_u16(b, 54int),
        magic: wire_u16(b, 56int),
        state: wire_u16(b, 58int),
        errors: wire_u16(b, 60int),
        minor_rev: wire_u16(b, 62int),
        lastcheck: wire_u32(b, 64int),
        checkinterval: wire_u32(b, 68int),
        creator_os: wire_u32(b, 72int),
        rev_level: wire_u32(b, 76int),
        def_resuid: wire_u16(b, 80int),
        def_resgid: wire_u16(b, 82int),
    }
}

/// The sector `write_superblock` writes: the 84 bytes of the superblock,
/// then zeros.
pub open spec fn sb_bytes(sb: Superblock) -> Seq<u8> {
    let b = zeros(512);
    let b = put32(b, 0int, sb.inodes_count);
    let b = put32(b, 4int, sb.blocks_count);
    let b = put32(b, 8int, sb.reserved_blocks);
    let b = put32(b, 12int, sb.free_blocks);
    let b = put32(b, 16int, sb.free_inodes);
    let b = put32(b, 20int, sb.first_data_block);
    let b = put32(b, 24int, sb.log_block_size);
    let b = put32(b, 28int, sb.log_frag_size);
    let b = put32(b, 32int, sb.blocks_per_group);
    let b = put32(b, 36int, sb.frags_per_group);
    let b = put32(b, 40int, sb.inodes_per_group);
    let b = put32(b, 44int, sb.mtime);
    let b = put32(b, 48int, sb.wtime);
    let b = put16(b, 52int, sb.mnt_count);
    let b = put16(b, 54int, sb.max_mnt_count);
    let b = put16(b, 56int, sb.magic);
    let b = put16(b, 58int, sb.state);
    let b = put16(b, 60int, sb.errors);
    let b = put16(b, 62int, sb.minor_rev);
    let b = put32(b, 64int, sb.lastcheck);
    let b = put32(b, 68int, sb.checkinterval);
    let b = put32(b, 72int, sb.creator_os);
    let b = put32(b, 76int, sb.rev_level);
    let b = put16(b, 80int, sb.def_resuid);
    let b = put16(b, 82int, sb.def_resgid);
    b
}

/// Reads a superblock from the start of a sector buffer.
pub fn parse_superblock(buf: &[u8; 512]) -> (sb: Superblock)
    ensures
        sb == sb_parse(buf@),
{
    Superblock {
        inodes_count: get_u32(buf, 0),
        blocks_count: get_u32(buf, 4),
        reserved_blocks: get_u32(buf, 8),
        free_blocks: get_u32(buf, 12),
        free_inodes: get_u32(buf, 16),
        first_data_block: get_u32(buf, 20),
        log_block_size: get_u32(buf, 24),
        log_frag_size: get_u32(buf, 28),
        blocks_per_group: get_u32(buf, 32),
        frags_per_group: get_u32(buf, 36),
        inodes_per_group: get_u32(buf, 40),
        mtime: get_u32(buf, 44),
        wtime: get_u32(buf, 48),
        mnt_count: get_u16(buf, 52),
        max_mnt_count: get_u16(buf, 54),
        magic: get_u16(buf, 56),
        state: get_u16(buf, 58),
        errors: get_u16(buf, 60),
        minor_rev: get_u16(buf, 62),
        lastcheck: get_u32(buf, 64),
        checkinterval: get_u32(buf, 68),
        creator_os: get_u32(buf, 72),
        rev_level: get_u32(buf, 76),
        def_resuid: get_u16(buf, 80),
        def_resgid: get_u16(buf, 82),
    }
}

/// Lays a superblock out in a zeroed sector buffer.
pub fn superblock_to_bytes(sb: &Superblock) -> (buf: [u8; 512])
    ensures
        buf@ == sb_bytes(*sb),
{
    let mut buf = [0u8; 512];
    proof {
        assert(buf@ =~= zeros(512));
    }
    put_u32(&mut buf, 0, sb.inodes_count);
    put_u32(&mut buf, 4, sb.blocks_count);
    put_u32(&mut buf, 8, sb.reserved_blocks);
    put_u32(&mut buf, 12, sb.free_blocks);
    put_u32(&mut buf, 16, sb.free_inodes);
    put_u32(&mut buf, 20, sb.first_data_block);
    put_u32(&mut buf, 24, sb.log_block_size);
    put_u32(&mut buf, 28, sb.log_frag_size);
    put_u32(&mut buf, 32, sb.blocks_per_group);
    put_u32(&mut buf, 36, sb.frags_per_group);
    put_u32(&mut buf, 40, sb.inodes_per_group);
    put_u32(&mut buf, 44, sb.mtime);
    put_u32(&mut buf, 48, sb.wtime);
    put_u16(&mut buf, 52, sb.mnt_count);
    put_u16(&mut buf, 54, sb.max_mnt_count);
    put_u16(&mut buf, 56, sb.magic);
    put_u16(&mut buf, 58, sb.state);
    put_u16(&mut buf, 60, sb.errors);
    put_u16(&mut buf, 62, sb.minor_rev);
    put_u32(&mut buf, 64, sb.lastcheck);
    put_u32(&mut buf, 68, sb.checkinterval);
    put_u32(&mut buf, 72, sb.creator_os);
    put_u32(&mut buf, 76, sb.rev_level);
    put_u16(&mut buf, 80, sb.def_resuid);
    put_u16(&mut buf, 82, sb.def_resgid);
    buf
}

/// Parsing what `superblock_to_bytes` laid out gives the superblock back.
pub proof fn lemma_superblock_roundtrip(sb: Superblock)
    ensures
        sb_parse(sb_bytes(sb)) == sb,
{
    let b0 = zeros(512);
    let b1 = put32(b0, 0int, sb.inodes_count);
    lemma_put32(b0, 0int, sb.inodes_count);
    let b2 = put32(b1, 4int, sb.blocks_count);
    lemma_put32(b1, 4int, sb.blocks_count);
    let b3 = put32(b2, 8int, sb.reserved_blocks);
    lemma_put32(b2, 8int, sb.reserved_blocks);
    let b4 = put32(b3, 12int, sb.free_blocks);
    lemma_put32(b3, 12int, sb.free_blocks);
    let b5 = put32(b4, 16int, sb.free_inodes);
    lemma_put32(b4, 16int, sb.free_inodes);
    let b6 = put32(b5, 20int, sb.first_data_block);
    lemma_put32(b5, 20int, sb.first_data_block);
    let b7 = put32(b6, 24int, sb.log_block_size);
    lemma_put32(b6, 24int, sb.log_block_size);
    let b8 = put32(b7, 28int, sb.log_frag_size);
    lemma_put32(b7, 28int, sb.log_frag_size);
    let b9 = put32(b8, 32int, sb.blocks_per_group);
    lemma_put32(b8, 32int, sb.blocks_per_group);
    let b10 = put32(b9, 36int, sb.frags_per_group);
    lemma_put32(b9, 36int, sb.frags_per_group);
    let b11 = put32(b10, 40int, sb.inodes_per_group);
    lemma_put32(b10, 40int, sb.inodes_per_group);
    let b12 = put32(b11, 44int, sb.mtime);
    lemma_put32(b11, 44int, sb.mtime);
    let b13 = put32(b12, 48int, sb.wtime);
    lemma_put32(b12, 48int, sb.wtime);
    let b14 = put16(b13, 52int, sb.mnt_count);
    lemma_put16(b13, 52int, sb.mnt_count);
    let b15 = put16(b14, 54int, sb.max_mnt_count);
    lemma_put16(b14, 54int, sb.max_mnt_count);
    let b16 = put16(b15, 56int, sb.magic);
    lemma_put16(b15, 56int, sb.magic);
    let b17 = put16(b16, 58int, sb.state);
    lemma_put16(b16, 58int, sb.state);
    let b18 = put16(b17, 60int, sb.errors);
    lemma_put16(b17, 60int, sb.errors);
    let b19 = put16(b18, 62int, sb.minor_rev);
    lemma_put16(b18, 62int, sb.minor_rev);
    let b20 = put32(b19, 64int, sb.lastcheck);
    lemma_put32(b19, 64int, sb.lastcheck);
    let b21 = put32(b20, 68int, sb.checkinterval);
    lemma_put32(b20, 68int, sb.checkinterval);
    let b22 = put32(b21, 72int, sb.creator_os);
    lemma_put32(b21, 72int, sb.creator_os);
    let b23 = put32(b22, 76int, sb.rev_level);
    lemma_put32(b22, 76int, sb.rev_level);
    let b24 = put16(b23, 80int, sb.def_resuid);
    lemma_put16(b23, 80int, sb.def_resuid);
    let b25 = put16(b24, 82int, sb.def_resgid);
    lemma_put16(b24, 82int, sb.def_resgid);
    assert(b25 == sb_bytes(sb));
}

/// The superblock as read from device `d`, and the store after the read;
/// `None` when the device cannot give its sector.
pub open spec fn read_superblock_spec(st: Store, d: usize) -> Option<(Superblock, Store)> {
    if !st_fits(st, d, SUPERBLOCK_SECTOR) {
        None
    } else {
        match st_read(st, d, SUPERBLOCK_SECTOR) {
            Some((b, st1)) => Some((sb_parse(b), st1)),
            None => None,
        }
    }
}

/// Reads the superblock through the cache; the device must give it.
pub fn read_superblock(storage: &mut Storage, device: usize) -> (sb: Superblock)
    requires
        old(storage).wf(),
        read_superblock_spec(old(storage).store(), device) is Some,
    ensures
        final(storage).wf(),
        read_superblock_spec(old(storage).store(), device) == Some((sb, final(storage).store())),
{
    match storage.read(device, SUPERBLOCK_SECTOR) {
        Ok(buffer) => parse_superblock(&buffer),
        Err(_) => {
            proof {
                assert(false);
            }
            parse_superblock(&[0u8; 512])
        },
    }
}

/// Writes the superblock through the cache.
pub fn write_superblock(storage: &mut Storage, device: usize, sb: &Superblock)
    requires
        old(storage).wf(),
    ensures
        final(storage).wf(),
        final(storage).store() == st_write(old(storage).store(), device, SUPERBLOCK_SECTOR, sb_bytes(*sb)),
{
    let buffer = superblock_to_bytes(sb);
    storage.write(device, SUPERBLOCK_SECTOR, &buffer);
}

impl Superblock {
    /// Bytes per block: 1024 shifted left by the logarithm field.
    pub fn block_size(&self) -> (n: usize)
        requires
            self.log_block_size < usize::BITS,
        ensures
            n == (1024usize << self.log_block_size),
    {
        1024usize << self.log_block_size
    }

    pub fn blocks_per_group(&self) -> (n: u32)
        ensures
            n == self.blocks_per_group,
    {
        self.blocks_per_group
    }

    pub fn inodes_per_group(&self) -> (n: u32)
        ensures
            n == self.inodes_per_group,
    {
        self.inodes_per_group
    }
}

/// A superblock read never shrinks the cache; one that evicts nothing
/// keeps every view and parses the superblock sector's view.
pub proof fn lemma_superblock_kept(st: Store, d: usize)
    requires
        read_superblock_spec(st, d) is Some,
    ensures
        read_superblock_spec(st, d) matches Some((sb, st1)) && st.0.len() <= st1.0.len()
            && (crate::fs::store::in_range(st) ==> crate::fs::store::in_range(st1))
            && (coherent(st) && st1.0.len() < CACHE_SIZE ==> kept(st, st1)
                && (view_of(st, d, SUPERBLOCK_SECTOR) matches Some(b) && sb == sb_parse(b))),
{
    lemma_read_step(st, d, SUPERBLOCK_SECTOR);
}

} // verus!
