use vstd::prelude::*;
use crate::fs::cache::CACHE_SIZE;
use crate::fs::ext2::inode::{bgd_field_spec, bgd_location, read_bgd_field, sectors_whole};
use crate::fs::ext2::superblock::{SUPERBLOCK_SECTOR, lemma_superblock_kept, read_superblock, read_superblock_spec, sb_parse};
use crate::fs::store::{Storage, Store, coherent, lemma_read_step, lemma_write_grows, lemma_write_kept, st_fits, in_range, st_read, st_write, view_of};
use crate::wayland::protocol::wire_u32;

verus! {

/// Bits in a bitmap sector.
pub const BITS_PER_SECTOR: u32 = 4096;

/// Bit `k` of `b` is clear.
pub open spec fn bit_clear(b: u8, k: int) -> bool {
    b & (1u8 << (k as u8)) == 0
}

/// The lowest clear bit of `b` from bit `k` on (8 when there is none).
pub open spec fn low_zero_from(b: u8, k: int) -> int
    decreases 8 - k,
{
    if k >= 8 || k < 0 {
        8
    } else if b & (1u8 << (k as u8)) == 0 {
        k
    } else {
        low_zero_from(b, k + 1)
    }
}

/// The first clear bit of a bitmap sector from byte `i` on: its byte and
/// bit.
pub open spec fn first_free_from(buf: Seq<u8>, i: int) -> Option<(int, int)>
    decreases 512 - i,
{
    if i >= 512 || i < 0 {
        None
    } else if buf[i] != 0xFF {
        Some((i, low_zero_from(buf[i], 0)))
    } else {
        first_free_from(buf, i + 1)
    }
}

proof fn lemma_low_zero(b: u8, k: int)
    requires
        0 <= k <= 8,
        b != 0xFF || k > 0,
        forall|j: int| 0 <= j < k ==> !#[trigger] bit_clear(b, j),
    ensures
        b != 0xFF ==> k <= low_zero_from(b, k) < 8,
        b != 0xFF ==> b & (1u8 << (low_zero_from(b, k) as u8)) == 0,
    decreases 8 - k,
{
    if k < 8 && b & (1u8 << (k as u8)) != 0 {
        lemma_low_zero(b, k + 1);
    } else if k >= 8 && b != 0xFF {
        assert(!bit_clear(b, 0) && !bit_clear(b, 1) && !bit_clear(b, 2) && !bit_clear(b, 3));
        assert(!bit_clear(b, 4) && !bit_clear(b, 5) && !bit_clear(b, 6) && !bit_clear(b, 7));
        assert(b & (1u8 << 0u8) != 0);
        assert(b & (1u8 << 1u8) != 0);
        assert(b & (1u8 << 2u8) != 0);
        assert(b & (1u8 << 3u8) != 0);
        assert(b & (1u8 << 4u8) != 0);
        assert(b & (1u8 << 5u8) != 0);
        assert(b & (1u8 << 6u8) != 0);
        assert(b & (1u8 << 7u8) != 0);
        assert(b & (1u8 << 0u8) != 0 && b & (1u8 << 1u8) != 0 && b & (1u8 << 2u8) != 0 && b & (1u8 << 3u8) != 0
            && b & (1u8 << 4u8) != 0 && b & (1u8 << 5u8) != 0 && b & (1u8 << 6u8) != 0 && b & (1u8 << 7u8) != 0
            ==> b == 0xFF) by (bit_vector);
    }
}

/// Bit `k` of a bitmap sector (bit `k % 8` of byte `k / 8`) is clear.
pub open spec fn sector_bit_clear(buf: Seq<u8>, k: int) -> bool {
    bit_clear(buf[k / 8], k % 8)
}

/// Bits below `low_zero_from(b, k)`, from `k` on, are set.
proof fn lemma_low_zero_below(b: u8, k: int, j: int)
    requires
        0 <= k <= j < low_zero_from(b, k),
        j < 8,
    ensures
        !bit_clear(b, j),
    decreases j - k,
{
    if j > k {
        assert(b & (1u8 << (k as u8)) != 0);
        lemma_low_zero_below(b, k + 1, j);
    } else {
        assert(b & (1u8 << (k as u8)) != 0);
    }
}

/// A byte of all ones has no clear bit.
proof fn lemma_full_byte(j: int)
    requires
        0 <= j < 8,
    ensures
        !bit_clear(0xFFu8, j),
{
    let jj = j as u8;
    assert(0xFFu8 & (1u8 << jj) != 0) by (bit_vector)
        requires
            jj < 8,
    ;
}

/// `first_free_from(buf, i)` finds the lowest clear bit from byte `i` on.
proof fn lemma_first_free_from(buf: Seq<u8>, i: int)
    requires
        buf.len() == 512,
        0 <= i <= 512,
    ensures
        match first_free_from(buf, i) {
            Some((byte, bit)) => i <= byte < 512 && 0 <= bit < 8 && sector_bit_clear(buf, byte * 8 + bit)
                && forall|k: int| i * 8 <= k < byte * 8 + bit ==> !#[trigger] sector_bit_clear(buf, k),
            None => forall|k: int| i * 8 <= k < 4096 ==> !#[trigger] sector_bit_clear(buf, k),
        },
    decreases 512 - i,
{
    if i < 512 {
        let b = buf[i];
        if b != 0xFF {
            lemma_low_zero(b, 0);
            let bit = low_zero_from(b, 0);
            assert((i * 8 + bit) / 8 == i && (i * 8 + bit) % 8 == bit);
            assert forall|k: int| i * 8 <= k < i * 8 + bit implies !#[trigger] sector_bit_clear(buf, k) by {
                assert(k / 8 == i && k % 8 == k - i * 8);
                lemma_low_zero_below(b, 0, k - i * 8);
            }
        } else {
            lemma_first_free_from(buf, i + 1);
            assert forall|k: int| i * 8 <= k < i * 8 + 8 implies !#[trigger] sector_bit_clear(buf, k) by {
                assert(k / 8 == i && k % 8 == k - i * 8);
                lemma_full_byte(k - i * 8);
            }
        }
    }
}

/// What `find_free_bit` finds, stated directly: the lowest clear bit of
/// the sector (bit `k % 8` of byte `k / 8` counting `k` from 0), or none
/// when every bit is set.
pub proof fn lemma_first_free_is_lowest(buf: Seq<u8>)
    requires
        buf.len() == 512,
    ensures
        match first_free_from(buf, 0) {
            Some((byte, bit)) => sector_bit_clear(buf, byte * 8 + bit)
                && forall|k: int| 0 <= k < byte * 8 + bit ==> !#[trigger] sector_bit_clear(buf, k),
            None => forall|k: int| 0 <= k < 4096 ==> !#[trigger] sector_bit_clear(buf, k),
        },
{
    lemma_first_free_from(buf, 0);
}

/// Finds the first clear bit of a bitmap sector.
pub fn find_free_bit(buf: &[u8; 512]) -> (r: Option<(usize, u8)>)
    ensures
        match first_free_from(buf@, 0) {
            None => r is None,
            Some((byte, bit)) => r == Some((byte as usize, bit as u8)) && 0 <= byte < 512 && 0 <= bit < 8,
        },
{
    let mut byte_idx: usize = 0;
    while byte_idx < 512
        invariant
            byte_idx <= 512,
            first_free_from(buf@, byte_idx as int) == first_free_from(buf@, 0),
        decreases 512 - byte_idx,
    {
        let byte = buf[byte_idx];
        if byte != 0xFF {
            let mut bit: u8 = 0;
            while bit < 8
                invariant
                    bit <= 8,
                    byte != 0xFF,
                    byte_idx < 512,
                    byte == buf@[byte_idx as int],
                    first_free_from(buf@, byte_idx as int) == first_free_from(buf@, 0),
                    forall|j: int| 0 <= j < bit ==> !#[trigger] bit_clear(byte, j),
                    low_zero_from(byte, bit as int) == low_zero_from(byte, 0),
                decreases 8 - bit,
            {
                if (byte & (1u8 << bit)) == 0 {
                    return Some((byte_idx, bit));
                }
                bit += 1;
            }
            proof {
                lemma_low_zero(byte, 8);
            }
        }
        byte_idx += 1;
    }
    None
}

/// The number a clear bit stands for: bit `bit` of byte `byte` of sector
/// `sector` of the bitmap of `group`, plus `base` (1 for inodes, whose
/// numbers start at 1; 0 for blocks).
pub open spec fn bit_number(group: int, per_group: int, sector: int, byte: int, bit: int, base: int) -> int {
    group * per_group + sector * 4096 + byte * 8 + bit + base
}

/// Scanning the bitmap at `bb` from sector `sector` (of 2): the first clear
/// bit is set, its sector written back, and its number given; no number
/// when every bit is set; an error when the device cannot give a sector.
/// `None` when the number or a read overflows.
pub open spec fn sector_scan(st: Store, d: usize, bb: u32, per: u32, group: u32, sector: int, base: int) -> Option<(Result<Option<u32>, ()>, Store)>
    decreases 2 - sector,
{
    if sector >= 2 || sector < 0 {
        Some((Ok(None), st))
    } else if !st_fits(st, d, (bb + sector) as u64) {
        None
    } else {
        match st_read(st, d, (bb + sector) as u64) {
            None => Some((Err(()), st)),
            Some((buf, st1)) => match first_free_from(buf, 0) {
                None => sector_scan(st1, d, bb, per, group, sector + 1, base),
                Some((byte, bit)) => {
                    let n = bit_number(group as int, per as int, sector, byte, bit, base);
                    if group * per > u32::MAX || n > u32::MAX {
                        None
                    } else {
                        let buf2 = buf.update(byte, buf[byte] | (1u8 << (bit as u8)));
                        Some((Ok(Some(n as u32)), st_write(st1, d, (bb + sector) as u64, buf2)))
                    }
                },
            },
        }
    }
}

/// Scanning the bitmaps of groups `group..groups` in turn; `field` is the
/// offset of the bitmap's block in the group descriptor, which must be
/// readable.
pub open spec fn group_scan(st: Store, d: usize, per: u32, group: int, groups: int, field: int, base: int) -> Option<(Result<u32, ()>, Store)>
    decreases groups - group,
{
    if group >= groups || group < 0 || group > u32::MAX {
        Some((Err(()), st))
    } else {
        match bgd_field_spec(st, d, group as u32, field) {
            None => None,
            Some((bb, st1)) => match sector_scan(st1, d, bb, per, group as u32, 0, base) {
                None => None,
                Some((Err(e), st2)) => Some((Err(e), st2)),
                Some((Ok(Some(n)), st2)) => Some((Ok(n), st2)),
                Some((Ok(None), st2)) => group_scan(st2, d, per, group + 1, groups, field, base),
            },
        }
    }
}

/// Allocating from a bitmap: the superblock gives the object count and
/// the objects per group; `None` when the superblock cannot be read or
/// those divide by zero or overflow.
pub open spec fn allocate_spec(st: Store, d: usize, inodes: bool) -> Option<(Result<u32, ()>, Store)> {
    match read_superblock_spec(st, d) {
        None => None,
        Some((sb, st1)) => {
            let count = if inodes { sb.inodes_count } else { sb.blocks_count };
            let per = if inodes { sb.inodes_per_group } else { sb.blocks_per_group };
            if per == 0 || count + per > u32::MAX {
                None
            } else {
                let groups = (count + per - 1) / (per as int);
                group_scan(st1, d, per, 0, groups, if inodes { 4 } else { 0 }, if inodes { 1 } else { 0 })
            }
        },
    }
}

/// The block of the inode bitmap of `group`.
pub fn get_inode_bitmap_block(storage: &mut Storage, device: usize, group: u32) -> (b: u32)
    requires
        old(storage).wf(),
        bgd_field_spec(old(storage).store(), device, group, 4) is Some,
    ensures
        final(storage).wf(),
        bgd_field_spec(old(storage).store(), device, group, 4) == Some((b, final(storage).store())),
{
    read_bgd_field(storage, device, group, 4)
}

/// The block of the block bitmap of `group`.
pub fn get_block_bitmap_block(storage: &mut Storage, device: usize, group: u32) -> (b: u32)
    requires
        old(storage).wf(),
        bgd_field_spec(old(storage).store(), device, group, 0) is Some,
    ensures
        final(storage).wf(),
        bgd_field_spec(old(storage).store(), device, group, 0) == Some((b, final(storage).store())),
{
    read_bgd_field(storage, device, group, 0)
}

/// Scans the two sectors of the bitmap at `bitmap_block` (see
/// `sector_scan`).
fn scan_bitmap(storage: &mut Storage, device: usize, bitmap_block: u32, per: u32, group: u32, base: u32) -> (r: Result<Option<u32>, ()>)
    requires
        old(storage).wf(),
        base <= 1,
        sector_scan(old(storage).store(), device, bitmap_block, per, group, 0, base as int) is Some,
    ensures
        final(storage).wf(),
        sector_scan(old(storage).store(), device, bitmap_block, per, group, 0, base as int) == Some((r, final(storage).store())),
{
    let mut sector: u32 = 0;
    while sector < 2
        invariant
            sector <= 2,
            base <= 1,
            storage.wf(),
            sector_scan(storage.store(), device, bitmap_block, per, group, sector as int, base as int)
                == sector_scan(old(storage).store(), device, bitmap_block, per, group, 0, base as int),
            sector_scan(old(storage).store(), device, bitmap_block, per, group, 0, base as int) is Some,
        decreases 2 - sector,
    {
        let mut buffer = match storage.read(device, bitmap_block as u64 + sector as u64) {
            Ok(b) => b,
            Err(e) => {
                return Err(e);
            },
        };
        match find_free_bit(&buffer) {
            None => {},
            Some((byte_idx, bit)) => {
                buffer[byte_idx] = buffer[byte_idx] | (1u8 << bit);
                storage.write(device, bitmap_block as u64 + sector as u64, &buffer);
                let n = (group * per) + (sector * BITS_PER_SECTOR) + (byte_idx as u32 * 8) + bit as u32 + base;
                return Ok(Some(n));
            },
        }
        sector += 1;
    }
    Ok(None)
}

/// Scans the groups' bitmaps for a clear bit (see `allocate_spec`).
fn allocate(storage: &mut Storage, device: usize, inodes: bool) -> (r: Result<u32, ()>)
    requires
        old(storage).wf(),
        allocate_spec(old(storage).store(), device, inodes) is Some,
    ensures
        final(storage).wf(),
        allocate_spec(old(storage).store(), device, inodes) == Some((r, final(storage).store())),
{
    let sb = read_superblock(storage, device);
    let count = if inodes { sb.inodes_count } else { sb.blocks_count };
    let per = if inodes { sb.inodes_per_group } else { sb.blocks_per_group };
    let field: usize = if inodes { 4 } else { 0 };
    let base: u32 = if inodes { 1 } else { 0 };
    let groups = (count + per - 1) / per;
    let mut group: u32 = 0;
    while group < groups
        invariant
            group <= groups,
            per != 0,
            base <= 1,
            field == (if inodes { 4usize } else { 0 }),
            base == (if inodes { 1u32 } else { 0 }),
            storage.wf(),
            group_scan(storage.store(), device, per, group as int, groups as int, field as int, base as int)
                == allocate_spec(old(storage).store(), device, inodes),
            allocate_spec(old(storage).store(), device, inodes) is Some,
        decreases groups - group,
    {
        let bitmap_block = read_bgd_field(storage, device, group, field);
        match scan_bitmap(storage, device, bitmap_block, per, group, base) {
            Ok(Some(n)) => {
                return Ok(n);
            },
            Ok(None) => {},
            Err(e) => {
                return Err(e);
            },
        }
        group += 1;
    }
    Err(())
}

/// Allocates a free inode: marks the first clear bit of the inode bitmaps
/// and gives its number (numbers start at 1).
pub fn allocate_inode(storage: &mut Storage, device: usize) -> (r: Result<u32, ()>)
    requires
        old(storage).wf(),
        allocate_spec(old(storage).store(), device, true) is Some,
    ensures
        final(storage).wf(),
        allocate_spec(old(storage).store(), device, true) == Some((r, final(storage).store())),
{
    allocate(storage, device, true)
}

/// Allocates a free block: marks the first clear bit of the block bitmaps
/// and gives its number.
pub fn allocate_block(storage: &mut Storage, device: usize) -> (r: Result<u32, ()>)
    requires
        old(storage).wf(),
        allocate_spec(old(storage).store(), device, false) is Some,
    ensures
        final(storage).wf(),
        allocate_spec(old(storage).store(), device, false) == Some((r, final(storage).store())),
{
    allocate(storage, device, false)
}

/// Freeing inode `n`: its bit in its group's bitmap is cleared; an error
/// when the device cannot give the bitmap's sector. `None` when `n` is 0,
/// the superblock gives no inodes per group, or the superblock or group
/// descriptor cannot be read.
pub open spec fn free_inode_spec(st: Store, d: usize, n: u32) -> Option<(Result<(), ()>, Store)> {
    match read_superblock_spec(st, d) {
        None => None,
        Some((sb, st1)) => {
            let per = sb.inodes_per_group;
            if n == 0 || per == 0 {
                None
            } else {
                let group = ((n - 1) / (per as int)) as u32;
                let index = (n - 1) % (per as int);
                match bgd_field_spec(st1, d, group, 4) {
                    None => None,
                    Some((bb, st2)) => {
                        let sector = index / 4096;
                        let byte = (index / 8) % 512;
                        let bit = index % 8;
                        if !st_fits(st2, d, (bb + sector) as u64) {
                            None
                        } else {
                            match st_read(st2, d, (bb + sector) as u64) {
                                None => Some((Err(()), st2)),
                                Some((buf, st3)) => {
                                    let buf2 = buf.update(byte, buf[byte] & !(1u8 << (bit as u8)));
                                    Some((Ok(()), st_write(st3, d, (bb + sector) as u64, buf2)))
                                },
                            }
                        }
                    },
                }
            }
        },
    }
}

/// Frees inode `n` (see `free_inode_spec`).
pub fn free_inode(storage: &mut Storage, device: usize, n: u32) -> (r: Result<(), ()>)
    requires
        old(storage).wf(),
        free_inode_spec(old(storage).store(), device, n) is Some,
    ensures
        final(storage).wf(),
        free_inode_spec(old(storage).store(), device, n) == Some((r, final(storage).store())),
{
    let sb = read_superblock(storage, device);
    let group = (n - 1) / sb.inodes_per_group;
    let index = (n - 1) % sb.inodes_per_group;
    let bitmap_block = get_inode_bitmap_block(storage, device, group);
    let sector = (index / (512 * 8)) as u64;
    let byte_idx = ((index / 8) % 512) as usize;
    let bit = (index % 8) as u8;
    let mut buffer = match storage.read(device, bitmap_block as u64 + sector) {
        Ok(b) => b,
        Err(e) => {
            return Err(e);
        },
    };
    buffer[byte_idx] = buffer[byte_idx] & !(1u8 << bit);
    storage.write(device, bitmap_block as u64 + sector, &buffer);
    Ok(())
}

/// Setting or clearing one bit of a byte changes that bit alone.
proof fn lemma_byte_bits(b: u8, bit: int, j: int)
    requires
        0 <= bit < 8,
        0 <= j < 8,
    ensures
        bit_clear(b | (1u8 << (bit as u8)), j) == (j != bit && bit_clear(b, j)),
        bit_clear(b & !(1u8 << (bit as u8)), j) == (j == bit || bit_clear(b, j)),
{
    let bb = bit as u8;
    let jj = j as u8;
    assert(((b | (1u8 << bb)) & (1u8 << jj) == 0) == (jj != bb && b & (1u8 << jj) == 0)) by (bit_vector)
        requires
            bb < 8,
            jj < 8,
    ;
    assert(((b & !(1u8 << bb)) & (1u8 << jj) == 0) == (jj == bb || b & (1u8 << jj) == 0)) by (bit_vector)
        requires
            bb < 8,
            jj < 8,
    ;
}

/// What an allocation writes back to the bitmap sector it found a clear bit
/// in: the lowest clear bit of the sector becomes set, and no other bit
/// changes.
pub proof fn lemma_allocation_sets_lowest(buf: Seq<u8>)
    requires
        buf.len() == 512,
        first_free_from(buf, 0) is Some,
    ensures
        ({
            let (byte, bit) = first_free_from(buf, 0)->0;
            let k0 = byte * 8 + bit;
            let buf2 = buf.update(byte, buf[byte] | (1u8 << (bit as u8)));
            &&& 0 <= k0 < 4096
            &&& sector_bit_clear(buf, k0)
            &&& forall|k: int| 0 <= k < k0 ==> !#[trigger] sector_bit_clear(buf, k)
            &&& !sector_bit_clear(buf2, k0)
            &&& forall|k: int| 0 <= k < 4096 && k != k0 ==> #[trigger] sector_bit_clear(buf2, k) == sector_bit_clear(buf, k)
        }),
{
    lemma_first_free_from(buf, 0);
    let (byte, bit) = first_free_from(buf, 0)->0;
    let k0 = byte * 8 + bit;
    let buf2 = buf.update(byte, buf[byte] | (1u8 << (bit as u8)));
    assert(k0 / 8 == byte && k0 % 8 == bit);
    lemma_byte_bits(buf[byte], bit, bit);
    assert forall|k: int| 0 <= k < 4096 && k != k0 implies #[trigger] sector_bit_clear(buf2, k) == sector_bit_clear(buf, k) by {
        if k / 8 == byte {
            lemma_byte_bits(buf[byte], bit, k % 8);
        }
    }
}

/// Freeing inode `index` (counted from 0 in its group's bitmap) clears its
/// bit, bit `index % 8` of byte `(index / 8) % 512`, and no other; freeing
/// it again leaves the sector as it is.
pub proof fn lemma_free_clears_only(buf: Seq<u8>, byte: int, bit: int)
    requires
        buf.len() == 512,
        0 <= byte < 512,
        0 <= bit < 8,
    ensures
        ({
            let k0 = byte * 8 + bit;
            let buf2 = buf.update(byte, buf[byte] & !(1u8 << (bit as u8)));
            &&& sector_bit_clear(buf2, k0)
            &&& forall|k: int| 0 <= k < 4096 && k != k0 ==> #[trigger] sector_bit_clear(buf2, k) == sector_bit_clear(buf, k)
            &&& buf2.update(byte, buf2[byte] & !(1u8 << (bit as u8))) == buf2
        }),
{
    let k0 = byte * 8 + bit;
    let buf2 = buf.update(byte, buf[byte] & !(1u8 << (bit as u8)));
    assert(k0 / 8 == byte && k0 % 8 == bit);
    lemma_byte_bits(buf[byte], bit, bit);
    assert forall|k: int| 0 <= k < 4096 && k != k0 implies #[trigger] sector_bit_clear(buf2, k) == sector_bit_clear(buf, k) by {
        if k / 8 == byte {
            lemma_byte_bits(buf[byte], bit, k % 8);
        }
    }
    let b = buf[byte];
    let bb = bit as u8;
    assert((b & !(1u8 << bb)) & !(1u8 << bb) == b & !(1u8 << bb)) by (bit_vector);
    assert(buf2.update(byte, buf2[byte] & !(1u8 << (bit as u8))) =~= buf2);
}

/// Where the inode bitmap keeps the bit of inode `n`, as the sector views
/// give it: the bitmap sector, and the byte and bit in it.
pub open spec fn inode_bit_by_views(st: Store, d: usize, n: u32) -> Option<(u64, int, int)> {
    match view_of(st, d, SUPERBLOCK_SECTOR) {
        None => None,
        Some(b0) => {
            let per = sb_parse(b0).inodes_per_group;
            if n == 0 || per == 0 {
                None
            } else {
                let group = ((n - 1) / (per as int)) as u32;
                let index = (n - 1) % (per as int);
                let (bsec, boff) = bgd_location(group);
                match view_of(st, d, bsec) {
                    None => None,
                    Some(b1) => Some(((wire_u32(b1, boff + 4) + index / 4096) as u64, (index / 8) % 512, index % 8)),
                }
            }
        },
    }
}

/// The bitmap sector of inode `n` lies apart from the superblock and from
/// the sector of its group descriptor.
pub open spec fn bit_apart(st: Store, d: usize, n: u32) -> bool {
    view_of(st, d, SUPERBLOCK_SECTOR) matches Some(b0) && (inode_bit_by_views(st, d, n) matches Some((sec, _, _)) && {
        let per = sb_parse(b0).inodes_per_group;
        &&& sec != SUPERBLOCK_SECTOR
        &&& sec != bgd_location(((n - 1) / (per as int)) as u32).0
    })
}

/// Freeing inode `n`, without evicting from the cache: the bit of `n` in
/// its bitmap sector is clear afterwards, every other bit of that sector
/// and every other sector reads as before; and where the bitmap sector
/// lies apart from the superblock and the group descriptor, freeing `n`
/// again changes nothing.
pub proof fn lemma_free_inode_clears_only(st: Store, d: usize, n: u32)
    requires
        coherent(st),
        sectors_whole(st, d),
        free_inode_spec(st, d, n) matches Some((Ok(()), s4)) && s4.0.len() < CACHE_SIZE,
    ensures
        inode_bit_by_views(st, d, n) matches Some((sec, byte, bit)) && (view_of(st, d, sec) matches Some(buf)
            && (free_inode_spec(st, d, n) matches Some((_, s4)) && {
                let k0 = byte * 8 + bit;
                &&& coherent(s4)
                &&& s4.2 == st.2
                &&& view_of(s4, d, sec) matches Some(buf2) && {
                    &&& sector_bit_clear(buf2, k0)
                    &&& forall|k: int| 0 <= k < 4096 && k != k0 ==> #[trigger] sector_bit_clear(buf2, k) == sector_bit_clear(buf, k)
                }
                &&& forall|d2: usize, s2: u64| (d2, s2) != (d, sec) ==> #[trigger] view_of(s4, d2, s2) == view_of(st, d2, s2)
                &&& (bit_apart(st, d, n) && (free_inode_spec(s4, d, n) matches Some((_, s5)) && s5.0.len() < CACHE_SIZE) ==> (
                    free_inode_spec(s4, d, n) matches Some((Ok(()), s5))
                    && forall|d2: usize, s2: u64| #[trigger] view_of(s5, d2, s2) == view_of(s4, d2, s2)))
            })),
{
    lemma_free_step(st, d, n);
    let (_, s4) = free_inode_spec(st, d, n)->0;
    let (sec, byte, bit) = inode_bit_by_views(st, d, n)->0;
    let buf = view_of(st, d, sec)->0;
    assert(buf.len() == 512);
    lemma_free_clears_only(buf, byte, bit);
    if bit_apart(st, d, n) && (free_inode_spec(s4, d, n) matches Some((_, s5)) && s5.0.len() < CACHE_SIZE) {
        assert(view_of(s4, d, SUPERBLOCK_SECTOR) == view_of(st, d, SUPERBLOCK_SECTOR));
        let per = sb_parse(view_of(st, d, SUPERBLOCK_SECTOR)->0).inodes_per_group;
        let bsec = bgd_location(((n - 1) / (per as int)) as u32).0;
        assert(view_of(s4, d, bsec) == view_of(st, d, bsec));
        assert(inode_bit_by_views(s4, d, n) == inode_bit_by_views(st, d, n));
        lemma_free_step(s4, d, n);
        let (_, s5) = free_inode_spec(s4, d, n)->0;
        assert forall|d2: usize, s2: u64| #[trigger] view_of(s5, d2, s2) == view_of(s4, d2, s2) by {
            if (d2, s2) != (d, sec) {
                assert(view_of(s5, d2, s2) == view_of(s4, d2, s2));
            }
        }
    }
}

/// One free, without evicting: it finds the bit where the views say and
/// writes the bitmap sector's view with that bit cleared.
proof fn lemma_free_step(st: Store, d: usize, n: u32)
    requires
        coherent(st),
        free_inode_spec(st, d, n) matches Some((Ok(()), s4)) && s4.0.len() < CACHE_SIZE,
    ensures
        inode_bit_by_views(st, d, n) matches Some((sec, byte, bit)) && (view_of(st, d, sec) matches Some(buf)
            && (free_inode_spec(st, d, n) matches Some((_, s4)) && {
                &&& coherent(s4)
                &&& s4.2 == st.2
                &&& view_of(s4, d, sec) == Some(buf.update(byte, buf[byte] & !(1u8 << (bit as u8))))
                &&& forall|d2: usize, s2: u64| (d2, s2) != (d, sec) ==> #[trigger] view_of(s4, d2, s2) == view_of(st, d2, s2)
            })),
{
    let (sb, s1) = read_superblock_spec(st, d)->0;
    lemma_superblock_kept(st, d);
    let per = sb.inodes_per_group;
    let group = ((n - 1) / (per as int)) as u32;
    let index = (n - 1) % (per as int);
    let (bsec, boff) = bgd_location(group);
    let (bb, s2) = bgd_field_spec(s1, d, group, 4)->0;
    lemma_read_step(s1, d, bsec);
    let sec = (bb + index / 4096) as u64;
    let byte = (index / 8) % 512;
    let bit = index % 8;
    lemma_read_step(s2, d, sec);
    let (buf, s3) = st_read(s2, d, sec)->0;
    let buf2 = buf.update(byte, buf[byte] & !(1u8 << (bit as u8)));
    let s4 = st_write(s3, d, sec, buf2);
    assert(s3.0.len() <= s4.0.len());
    lemma_write_kept(s3, d, sec, buf2);
    assert(view_of(st, d, SUPERBLOCK_SECTOR) == view_of(s1, d, SUPERBLOCK_SECTOR));
    assert(view_of(st, d, bsec) == view_of(s1, d, bsec));
    assert(view_of(st, d, sec) == view_of(s2, d, sec));
    assert(inode_bit_by_views(st, d, n) == Some((sec, byte, bit)));
}

/// Scanning a bitmap never shrinks the cache, and without evicting keeps
/// it coherent and the devices as they were.
proof fn lemma_sector_scan_coherent(st: Store, d: usize, bb: u32, per: u32, group: u32, sector: int, base: int)
    requires
        sector_scan(st, d, bb, per, group, sector, base) is Some,
    ensures
        sector_scan(st, d, bb, per, group, sector, base) matches Some((_, s1)) && (in_range(st) ==> st.0.len() <= s1.0.len() && in_range(s1))
            && (coherent(st) && s1.0.len() < CACHE_SIZE ==> coherent(s1) && s1.2 == st.2
                && (sectors_whole(st, d) ==> sectors_whole(s1, d))),
    decreases 2 - sector,
{
    if 0 <= sector < 2 && st_fits(st, d, (bb + sector) as u64) {
        let sec = (bb + sector) as u64;
        if st_read(st, d, sec) is Some {
            lemma_read_step(st, d, sec);
            let (buf, st1) = st_read(st, d, sec)->0;
            match first_free_from(buf, 0) {
                None => lemma_sector_scan_coherent(st1, d, bb, per, group, sector + 1, base),
                Some((byte, bit)) => {
                    let buf2 = buf.update(byte, buf[byte] | (1u8 << (bit as u8)));
                    if in_range(st1) {
                        lemma_write_grows(st1, d, sec, buf2);
                    }
                    if coherent(st) && st_write(st1, d, sec, buf2).0.len() < CACHE_SIZE {
                        lemma_write_kept(st1, d, sec, buf2);
                        let s2 = st_write(st1, d, sec, buf2);
                        if sectors_whole(st, d) {
                            assert(view_of(st1, d, sec) == view_of(st, d, sec));
                            assert(Some(buf) == view_of(st, d, sec));
                            assert(buf.len() == 512);
                            lemma_first_free_from(buf, 0);
                            assert(buf2.len() == 512);
                            assert forall|t: u64| view_of(s2, d, t) is Some implies (#[trigger] view_of(s2, d, t))->0.len() == 512 by {
                                if t != sec {
                                    assert(view_of(s2, d, t) == view_of(st1, d, t));
                                    assert(view_of(st1, d, t) == view_of(st, d, t));
                                }
                            }
                        }
                    }
                },
            }
        }
    }
}

/// Scanning the groups' bitmaps never shrinks the cache, and without
/// evicting keeps it coherent and the devices as they were.
proof fn lemma_group_scan_coherent(st: Store, d: usize, per: u32, group: int, groups: int, field: int, base: int)
    requires
        group_scan(st, d, per, group, groups, field, base) is Some,
    ensures
        group_scan(st, d, per, group, groups, field, base) matches Some((_, s1)) && (in_range(st) ==> st.0.len() <= s1.0.len() && in_range(s1))
            && (coherent(st) && s1.0.len() < CACHE_SIZE ==> coherent(s1) && s1.2 == st.2
                && (sectors_whole(st, d) ==> sectors_whole(s1, d))),
    decreases groups - group,
{
    if 0 <= group < groups && group <= u32::MAX {
        let bsec = bgd_location(group as u32).0;
        lemma_read_step(st, d, bsec);
        let (bb, st1) = bgd_field_spec(st, d, group as u32, field)->0;
        lemma_sector_scan_coherent(st1, d, bb, per, group as u32, 0, base);
        match sector_scan(st1, d, bb, per, group as u32, 0, base) {
            Some((Ok(None), st2)) => lemma_group_scan_coherent(st2, d, per, group + 1, groups, field, base),
            _ => {},
        }
    }
}

/// Allocating never shrinks the cache, and without evicting keeps it
/// coherent and the devices as they were.
pub(crate) proof fn lemma_allocate_coherent(st: Store, d: usize, inodes: bool)
    requires
        allocate_spec(st, d, inodes) is Some,
    ensures
        allocate_spec(st, d, inodes) matches Some((_, s1)) && (in_range(st) ==> st.0.len() <= s1.0.len() && in_range(s1))
            && (coherent(st) && s1.0.len() < CACHE_SIZE ==> coherent(s1) && s1.2 == st.2
                && (sectors_whole(st, d) ==> sectors_whole(s1, d))),
{
    lemma_superblock_kept(st, d);
    let (sb, st1) = read_superblock_spec(st, d)->0;
    let count = if inodes { sb.inodes_count } else { sb.blocks_count };
    let per = if inodes { sb.inodes_per_group } else { sb.blocks_per_group };
    let groups = (count + per - 1) / (per as int);
    lemma_group_scan_coherent(st1, d, per, 0, groups, if inodes { 4 } else { 0 }, if inodes { 1 } else { 0 });
}

/// Every bit of sector `s` reads as set.
pub open spec fn sector_full(st: Store, d: usize, s: u64) -> bool {
    view_of(st, d, s) matches Some(buf) && forall|k: int| 0 <= k < 4096 ==> !#[trigger] sector_bit_clear(buf, k)
}

/// What a scan of the bitmap at `bb` from sector `sector` does, by the
/// views: it gives the number of the lowest clear bit of the first sector
/// that has one (every sector before it full), sets that bit and changes
/// nothing else; it gives no number when every sector is full, and changes
/// nothing then or on an error.
pub open spec fn scan_took_lowest(st: Store, s1: Store, d: usize, bb: u32, per: u32, group: u32, sector: int, base: int, r: Result<Option<u32>, ()>) -> bool {
    match r {
        Ok(Some(n)) => exists|j: int, k: int| #![trigger bit_number(group as int, per as int, j, k / 8, k % 8, base)]
            sector <= j < 2 && 0 <= k < 4096 && (forall|i: int| sector <= i < j ==> #[trigger] sector_full(st, d, (bb + i) as u64))
            && (view_of(st, d, (bb + j) as u64) matches Some(buf) && {
                &&& sector_bit_clear(buf, k)
                &&& forall|k2: int| 0 <= k2 < k ==> !#[trigger] sector_bit_clear(buf, k2)
                &&& n == bit_number(group as int, per as int, j, k / 8, k % 8, base)
                &&& view_of(s1, d, (bb + j) as u64) matches Some(buf2) && !sector_bit_clear(buf2, k)
                    && forall|k2: int| 0 <= k2 < 4096 && k2 != k ==> #[trigger] sector_bit_clear(buf2, k2) == sector_bit_clear(buf, k2)
                &&& forall|d2: usize, s2: u64| (d2, s2) != (d, (bb + j) as u64) ==> #[trigger] view_of(s1, d2, s2) == view_of(st, d2, s2)
            }),
        Ok(None) => (forall|i: int| sector <= i < 2 ==> #[trigger] sector_full(st, d, (bb + i) as u64))
            && forall|d2: usize, s2: u64| #[trigger] view_of(s1, d2, s2) == view_of(st, d2, s2),
        Err(_) => forall|d2: usize, s2: u64| #[trigger] view_of(s1, d2, s2) == view_of(st, d2, s2),
    }
}

/// Scanning a bitmap takes the lowest clear bit, sets it and nothing else
/// (see `scan_took_lowest`), when nothing evicts.
pub proof fn lemma_sector_scan_lowest(st: Store, d: usize, bb: u32, per: u32, group: u32, sector: int, base: int)
    requires
        coherent(st),
        sectors_whole(st, d),
        0 <= sector,
        0 <= base,
        sector_scan(st, d, bb, per, group, sector, base) matches Some((_, s1)) && s1.0.len() < CACHE_SIZE,
    ensures
        sector_scan(st, d, bb, per, group, sector, base) matches Some((r, s1))
            && scan_took_lowest(st, s1, d, bb, per, group, sector, base, r),
    decreases 2 - sector,
{
    lemma_sector_scan_coherent(st, d, bb, per, group, sector, base);
    if sector < 2 {
        let sec = (bb + sector) as u64;
        if st_read(st, d, sec) is Some {
            lemma_read_step(st, d, sec);
            let (buf, st1) = st_read(st, d, sec)->0;
            assert(Some(buf) == view_of(st, d, sec));
            assert(buf.len() == 512);
            lemma_first_free_is_lowest(buf);
            match first_free_from(buf, 0) {
                None => {
                    assert(sector_full(st, d, sec));
                    assert forall|t: u64| #[trigger] view_of(st1, d, t) == view_of(st, d, t) by {}
                    assert(sectors_whole(st1, d));
                    lemma_sector_scan_lowest(st1, d, bb, per, group, sector + 1, base);
                    let (r, s1) = sector_scan(st1, d, bb, per, group, sector + 1, base)->0;
                    assert forall|i: int| sector + 1 <= i < 2 implies (#[trigger] sector_full(st1, d, (bb + i) as u64)) == sector_full(st, d, (bb + i) as u64) by {
                        assert(view_of(st1, d, (bb + i) as u64) == view_of(st, d, (bb + i) as u64));
                    }
                    match r {
                        Ok(Some(n)) => {
                            let (j, k) = choose|j: int, k: int| #![trigger bit_number(group as int, per as int, j, k / 8, k % 8, base)]
                                sector + 1 <= j < 2 && 0 <= k < 4096 && (forall|i: int| sector + 1 <= i < j ==> #[trigger] sector_full(st1, d, (bb + i) as u64))
                                && (view_of(st1, d, (bb + j) as u64) matches Some(buf) && {
                                    &&& sector_bit_clear(buf, k)
                                    &&& forall|k2: int| 0 <= k2 < k ==> !#[trigger] sector_bit_clear(buf, k2)
                                    &&& n == bit_number(group as int, per as int, j, k / 8, k % 8, base)
                                    &&& view_of(s1, d, (bb + j) as u64) matches Some(buf2) && !sector_bit_clear(buf2, k)
                                        && forall|k2: int| 0 <= k2 < 4096 && k2 != k ==> #[trigger] sector_bit_clear(buf2, k2) == sector_bit_clear(buf, k2)
                                    &&& forall|d2: usize, s2: u64| (d2, s2) != (d, (bb + j) as u64) ==> #[trigger] view_of(s1, d2, s2) == view_of(st1, d2, s2)
                                });
                            assert(view_of(st1, d, (bb + j) as u64) == view_of(st, d, (bb + j) as u64));
                            assert forall|i: int| sector <= i < j implies #[trigger] sector_full(st, d, (bb + i) as u64) by {
                                if i > sector {
                                    assert(sector_full(st1, d, (bb + i) as u64));
                                }
                            }
                            assert(scan_took_lowest(st, s1, d, bb, per, group, sector, base, r));
                        },
                        Ok(None) => {
                            assert forall|i: int| sector <= i < 2 implies #[trigger] sector_full(st, d, (bb + i) as u64) by {
                                if i > sector {
                                    assert(sector_full(st1, d, (bb + i) as u64));
                                }
                            }
                        },
                        Err(_) => {},
                    }
                },
                Some((byte, bit)) => {
                    let k = byte * 8 + bit;
                    lemma_allocation_sets_lowest(buf);
                    lemma_first_free_from(buf, 0);
                    assert(k / 8 == byte && k % 8 == bit);
                    let n = bit_number(group as int, per as int, sector, byte, bit, base);
                    if !(group * per > u32::MAX || n > u32::MAX) {
                        let buf2 = buf.update(byte, buf[byte] | (1u8 << (bit as u8)));
                        lemma_write_kept(st1, d, sec, buf2);
                        let s1 = st_write(st1, d, sec, buf2);
                        assert(n == bit_number(group as int, per as int, sector, k / 8, k % 8, base));
                        assert((n as u32) as int == n);
                        assert(view_of(s1, d, sec) == Some(buf2));
                        assert(!sector_bit_clear(buf2, k));
                        assert forall|d2: usize, s2: u64| (d2, s2) != (d, sec) implies #[trigger] view_of(s1, d2, s2) == view_of(st, d2, s2) by {
                            assert(view_of(st1, d2, s2) == view_of(st, d2, s2));
                        }
                        assert(scan_took_lowest(st, s1, d, bb, per, group, sector, base, Ok(Some(n as u32))));
                    }
                },
            }
        }
    }
}

/// The block of the bitmap of group `g`, as its descriptor's view gives it
/// (`field` picks the block or the inode bitmap).
pub open spec fn bitmap_of(st: Store, d: usize, g: int, field: int) -> Option<u32> {
    match view_of(st, d, bgd_location(g as u32).0) {
        Some(b1) => Some(wire_u32(b1, bgd_location(g as u32).1 + field)),
        None => None,
    }
}

/// Both sectors of the bitmap of group `g` read as full.
pub open spec fn group_full(st: Store, d: usize, g: int, field: int) -> bool {
    bitmap_of(st, d, g, field) matches Some(bb) && sector_full(st, d, bb as u64) && sector_full(st, d, (bb + 1) as u64)
}

/// What a scan of groups `group..groups` does, by the views: it takes the
/// lowest clear bit of the first group whose bitmap has one (every group
/// before it full) as that group's scan does (see `scan_took_lowest`); on
/// an error it changes nothing.
pub open spec fn groups_took_lowest(st: Store, s1: Store, d: usize, per: u32, group: int, groups: int, field: int, base: int, r: Result<u32, ()>) -> bool {
    match r {
        Ok(n) => exists|g: int| #![trigger bitmap_of(st, d, g, field)]
            group <= g < groups && g <= u32::MAX && (forall|g2: int| group <= g2 < g ==> #[trigger] group_full(st, d, g2, field))
            && (bitmap_of(st, d, g, field) matches Some(bb) && scan_took_lowest(st, s1, d, bb, per, g as u32, 0, base, Ok(Some(n)))),
        Err(_) => forall|d2: usize, s2: u64| #[trigger] view_of(s1, d2, s2) == view_of(st, d2, s2),
    }
}

/// Two stores that read alike have alike bitmaps.
proof fn lemma_bitmaps_views(st: Store, st1: Store, d: usize, field: int)
    requires
        forall|d2: usize, s2: u64| #[trigger] view_of(st1, d2, s2) == view_of(st, d2, s2),
    ensures
        forall|g: int| #![trigger bitmap_of(st1, d, g, field)] #![trigger bitmap_of(st, d, g, field)]
            bitmap_of(st1, d, g, field) == bitmap_of(st, d, g, field),
        forall|g: int| #![trigger group_full(st1, d, g, field)] #![trigger group_full(st, d, g, field)]
            group_full(st1, d, g, field) == group_full(st, d, g, field),
        forall|s2: u64| #![trigger sector_full(st1, d, s2)] #![trigger sector_full(st, d, s2)]
            sector_full(st1, d, s2) == sector_full(st, d, s2),
{
    assert forall|s2: u64| #![trigger sector_full(st1, d, s2)] #![trigger sector_full(st, d, s2)]
        sector_full(st1, d, s2) == sector_full(st, d, s2) by {
        assert(view_of(st1, d, s2) == view_of(st, d, s2));
    }
    assert forall|g: int| #![trigger bitmap_of(st1, d, g, field)] #![trigger bitmap_of(st, d, g, field)]
        bitmap_of(st1, d, g, field) == bitmap_of(st, d, g, field) by {
        assert(view_of(st1, d, bgd_location(g as u32).0) == view_of(st, d, bgd_location(g as u32).0));
    }
    assert forall|g: int| #![trigger group_full(st1, d, g, field)] #![trigger group_full(st, d, g, field)]
        group_full(st1, d, g, field) == group_full(st, d, g, field) by {
        assert(bitmap_of(st1, d, g, field) == bitmap_of(st, d, g, field));
        if bitmap_of(st, d, g, field) is Some {
            let b2 = bitmap_of(st, d, g, field)->0;
            assert(sector_full(st1, d, b2 as u64) == sector_full(st, d, b2 as u64));
            assert(sector_full(st1, d, (b2 + 1) as u64) == sector_full(st, d, (b2 + 1) as u64));
        }
    }
}

/// Two stores that read alike scan alike.
proof fn lemma_took_lowest_views(st: Store, st1: Store, s1: Store, d: usize, bb: u32, per: u32, group: u32, base: int, r: Result<Option<u32>, ()>)
    requires
        forall|d2: usize, s2: u64| #[trigger] view_of(st1, d2, s2) == view_of(st, d2, s2),
        scan_took_lowest(st1, s1, d, bb, per, group, 0, base, r),
    ensures
        scan_took_lowest(st, s1, d, bb, per, group, 0, base, r),
{
    lemma_bitmaps_views(st, st1, d, 0);
    match r {
        Ok(Some(n)) => {
            let (j, k) = choose|j: int, k: int| #![trigger bit_number(group as int, per as int, j, k / 8, k % 8, base)]
                0 <= j < 2 && 0 <= k < 4096 && (forall|i: int| 0 <= i < j ==> #[trigger] sector_full(st1, d, (bb + i) as u64))
                && (view_of(st1, d, (bb + j) as u64) matches Some(buf) && {
                    &&& sector_bit_clear(buf, k)
                    &&& forall|k2: int| 0 <= k2 < k ==> !#[trigger] sector_bit_clear(buf, k2)
                    &&& n == bit_number(group as int, per as int, j, k / 8, k % 8, base)
                    &&& view_of(s1, d, (bb + j) as u64) matches Some(buf2) && !sector_bit_clear(buf2, k)
                        && forall|k2: int| 0 <= k2 < 4096 && k2 != k ==> #[trigger] sector_bit_clear(buf2, k2) == sector_bit_clear(buf, k2)
                    &&& forall|d2: usize, s2: u64| (d2, s2) != (d, (bb + j) as u64) ==> #[trigger] view_of(s1, d2, s2) == view_of(st1, d2, s2)
                });
            assert(view_of(st1, d, (bb + j) as u64) == view_of(st, d, (bb + j) as u64));
            assert forall|d2: usize, s2: u64| (d2, s2) != (d, (bb + j) as u64) implies #[trigger] view_of(s1, d2, s2) == view_of(st, d2, s2) by {
                assert(view_of(s1, d2, s2) == view_of(st1, d2, s2));
            }
            assert forall|i: int| 0 <= i < j implies #[trigger] sector_full(st, d, (bb + i) as u64) by {
                assert(sector_full(st1, d, (bb + i) as u64));
            }
        },
        Ok(None) => {
            assert forall|i: int| 0 <= i < 2 implies #[trigger] sector_full(st, d, (bb + i) as u64) by {
                assert(sector_full(st1, d, (bb + i) as u64));
            }
            assert forall|d2: usize, s2: u64| #[trigger] view_of(s1, d2, s2) == view_of(st, d2, s2) by {
                assert(view_of(s1, d2, s2) == view_of(st1, d2, s2));
            }
        },
        Err(_) => {
            assert forall|d2: usize, s2: u64| #[trigger] view_of(s1, d2, s2) == view_of(st, d2, s2) by {
                assert(view_of(s1, d2, s2) == view_of(st1, d2, s2));
            }
        },
    }
}

/// Two stores that read alike scan their groups alike.
proof fn lemma_groups_took_lowest_views(st: Store, st1: Store, s1: Store, d: usize, per: u32, group: int, groups: int, field: int, base: int, r: Result<u32, ()>)
    requires
        forall|d2: usize, s2: u64| #[trigger] view_of(st1, d2, s2) == view_of(st, d2, s2),
        groups_took_lowest(st1, s1, d, per, group, groups, field, base, r),
    ensures
        groups_took_lowest(st, s1, d, per, group, groups, field, base, r),
{
    lemma_bitmaps_views(st, st1, d, field);
    match r {
        Ok(n) => {
            let g = choose|g: int| #![trigger bitmap_of(st1, d, g, field)]
                group <= g < groups && g <= u32::MAX && (forall|g2: int| group <= g2 < g ==> #[trigger] group_full(st1, d, g2, field))
                && (bitmap_of(st1, d, g, field) matches Some(bb) && scan_took_lowest(st1, s1, d, bb, per, g as u32, 0, base, Ok(Some(n))));
            let bb = bitmap_of(st, d, g, field)->0;
            lemma_took_lowest_views(st, st1, s1, d, bb, per, g as u32, base, Ok(Some(n)));
        },
        Err(_) => {
            assert forall|d2: usize, s2: u64| #[trigger] view_of(s1, d2, s2) == view_of(st, d2, s2) by {
                assert(view_of(s1, d2, s2) == view_of(st1, d2, s2));
            }
        },
    }
}

/// Scanning the groups takes the lowest clear bit of the first group that
/// has one (see `groups_took_lowest`), when nothing evicts.
#[verifier::rlimit(40)]
proof fn lemma_group_scan_lowest(st: Store, d: usize, per: u32, group: int, groups: int, field: int, base: int)
    requires
        coherent(st),
        sectors_whole(st, d),
        0 <= group,
        0 <= base,
        group_scan(st, d, per, group, groups, field, base) matches Some((_, s1)) && s1.0.len() < CACHE_SIZE,
    ensures
        group_scan(st, d, per, group, groups, field, base) matches Some((r, s1))
            && groups_took_lowest(st, s1, d, per, group, groups, field, base, r),
    decreases groups - group,
{
    lemma_group_scan_coherent(st, d, per, group, groups, field, base);
    if group < groups && group <= u32::MAX {
        assert(in_range(st));
        let bsec = bgd_location(group as u32).0;
        lemma_read_step(st, d, bsec);
        let (bb, st1) = bgd_field_spec(st, d, group as u32, field)->0;
        assert(bitmap_of(st, d, group, field) == Some(bb));
        lemma_sector_scan_coherent(st1, d, bb, per, group as u32, 0, base);
        let (r, st2) = sector_scan(st1, d, bb, per, group as u32, 0, base)->0;
        if r == Ok::<Option<u32>, ()>(None) {
            lemma_group_scan_coherent(st2, d, per, group + 1, groups, field, base);
        }
        assert(st2.0.len() < CACHE_SIZE);
        assert forall|t: u64| #[trigger] view_of(st1, d, t) == view_of(st, d, t) by {}
        assert(sectors_whole(st1, d));
        lemma_sector_scan_lowest(st1, d, bb, per, group as u32, 0, base);
        lemma_took_lowest_views(st, st1, st2, d, bb, per, group as u32, base, r);
        match r {
            Ok(None) => {
                lemma_bitmaps_views(st, st2, d, field);
                assert((bb + 0) as u64 == bb as u64);
                assert(group_full(st, d, group, field));
                assert(sectors_whole(st2, d));
                lemma_group_scan_lowest(st2, d, per, group + 1, groups, field, base);
                let (r2, s3) = group_scan(st2, d, per, group + 1, groups, field, base)->0;
                lemma_groups_took_lowest_views(st, st2, s3, d, per, group + 1, groups, field, base, r2);
                match r2 {
                    Ok(n) => {
                        let g = choose|g: int| #![trigger bitmap_of(st, d, g, field)]
                            group + 1 <= g < groups && g <= u32::MAX && (forall|g2: int| group + 1 <= g2 < g ==> #[trigger] group_full(st, d, g2, field))
                            && (bitmap_of(st, d, g, field) matches Some(bb2) && scan_took_lowest(st, s3, d, bb2, per, g as u32, 0, base, Ok(Some(n))));
                        assert forall|g2: int| group <= g2 < g implies #[trigger] group_full(st, d, g2, field) by {}
                    },
                    Err(_) => {},
                }
            },
            Ok(Some(n)) => {
                assert(group <= group < groups);
            },
            Err(_) => {},
        }
    }
}

/// Allocation takes the lowest free bit: it gives the number of the lowest
/// clear bit of the first group bitmap that has one, every earlier group's
/// bitmap being full, sets that bit and changes nothing else; a failed
/// allocation changes nothing. This holds when the device's sectors are
/// whole and nothing evicts.
pub proof fn lemma_allocate_lowest(st: Store, d: usize, inodes: bool)
    requires
        coherent(st),
        sectors_whole(st, d),
        allocate_spec(st, d, inodes) matches Some((_, s1)) && s1.0.len() < CACHE_SIZE,
    ensures
        allocate_spec(st, d, inodes) matches Some((r, s1)) && (view_of(st, d, SUPERBLOCK_SECTOR) matches Some(b0) && {
            let sb = sb_parse(b0);
            let count = if inodes { sb.inodes_count } else { sb.blocks_count };
            let per = if inodes { sb.inodes_per_group } else { sb.blocks_per_group };
            let groups = (count + per - 1) / (per as int);
            groups_took_lowest(st, s1, d, per, 0, groups, if inodes { 4 } else { 0 }, if inodes { 1 } else { 0 }, r)
        }),
{
    lemma_superblock_kept(st, d);
    let (sb, st1) = read_superblock_spec(st, d)->0;
    let count = if inodes { sb.inodes_count } else { sb.blocks_count };
    let per = if inodes { sb.inodes_per_group } else { sb.blocks_per_group };
    let groups = (count + per - 1) / (per as int);
    let field = if inodes { 4int } else { 0int };
    let base = if inodes { 1int } else { 0int };
    lemma_group_scan_coherent(st1, d, per, 0, groups, field, base);
    assert forall|t: u64| #[trigger] view_of(st1, d, t) == view_of(st, d, t) by {}
    assert(sectors_whole(st1, d));
    lemma_group_scan_lowest(st1, d, per, 0, groups, field, base);
    let (r, s1) = group_scan(st1, d, per, 0, groups, field, base)->0;
    lemma_groups_took_lowest_views(st, st1, s1, d, per, 0, groups, field, base, r);
}

} // verus!
