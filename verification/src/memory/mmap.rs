use vstd::prelude::*;
use crate::memory::paging::{
    PageTables, PAGE_SIZE, dir_index, lemma_indices, page_entry, present, table_index,
};

verus! {

/// Where anonymous mappings are placed, from the bottom up.
pub const MMAP_START: usize = 0x4000_0000;
/// The first physical frame handed to mappings.
pub const PHYS_START: usize = 0x100_0000;
/// Flag of a private mapping, which gets fresh frames.
pub const MAP_PRIVATE: i32 = 0x02;
/// Page-table flags of mapped pages: present, writable, user.
pub const MAP_FLAGS: u32 = 0x7;

/// A mapping: where it starts, its length, and the file and offset behind
/// it (a negative descriptor for none).
#[derive(Clone, Copy)]
pub struct MmapRegion {
    pub addr: usize,
    pub size: usize,
    pub fd: i32,
    pub offset: usize,
}

/// The mappings made so far, the next free virtual address, and the next
/// free physical frame.
pub struct MmapState {
    pub regions: Vec<MmapRegion>,
    pub next_addr: usize,
    pub next_phys: usize,
}

/// `size` rounded up to whole pages.
pub open spec fn page_round(size: int) -> int {
    ((size + 4095) / 4096) * 4096
}

/// The number of pages that `length` bytes take.
pub open spec fn page_count(length: int) -> int {
    (length + 4095) / 4096
}

/// The address a mapping gets: the hint, or the next free address when
/// the hint is 0.
pub open spec fn map_address(s: MmapState, addr: usize) -> usize {
    if addr == 0 { s.next_addr } else { addr }
}

/// Page `k` of a mapping at `base` lands in the slot pair `(d, t)`.
pub open spec fn hits(base: usize, k: int, d: int, t: int) -> bool {
    dir_index((base + k * 4096) as usize) == d && table_index((base + k * 4096) as usize) == t
}

/// An entry a mapping did not aim at: unchanged, or zero in a table the
/// mapping had to create.
pub open spec fn kept(old_pt: PageTables, new_pt: PageTables, d: int, t: int) -> bool {
    new_pt.entry(d, t) == old_pt.entry(d, t) || (old_pt.entry(d, t) is None && new_pt.entry(d, t) == Some(0u32))
}

/// What a call of `mmap` needs so that no address, frame or table
/// counter overflows.
pub open spec fn mmap_fits(s: MmapState, pt: PageTables, addr: usize, length: usize, flags: i32) -> bool {
    &&& length + 4096 <= usize::MAX
    &&& addr == 0 ==> s.next_addr + page_round(length as int) <= usize::MAX
    &&& flags & MAP_PRIVATE != 0 ==> {
        &&& map_address(s, addr) + page_count(length as int) * 4096 <= usize::MAX
        &&& s.next_phys + page_count(length as int) * 4096 <= usize::MAX
        &&& pt.next_table + page_count(length as int) * 4096 <= u32::MAX
    }
}

impl MmapState {
    pub fn new() -> (s: Self)
        ensures
            s.regions@.len() == 0,
            s.next_addr == MMAP_START,
            s.next_phys == PHYS_START,
    {
        MmapState { regions: Vec::new(), next_addr: MMAP_START, next_phys: PHYS_START }
    }

    /// Takes the next free virtual range of `size` bytes, whole pages.
    fn find_free_region(&mut self, size: usize) -> (addr: usize)
        requires
            size + 4096 <= usize::MAX,
            old(self).next_addr + page_round(size as int) <= usize::MAX,
        ensures
            addr == old(self).next_addr,
            final(self).next_addr == old(self).next_addr + page_round(size as int),
            final(self).next_phys == old(self).next_phys,
            final(self).regions@ == old(self).regions@,
    {
        let addr = self.next_addr;
        let s = size + PAGE_SIZE - 1;
        let rounded = s & !(PAGE_SIZE - 1);
        assert(rounded == (s / 4096) * 4096) by (bit_vector)
            requires
                rounded == s & !4095usize,
        ;
        self.next_addr = addr + rounded;
        addr
    }

    /// Takes the next free physical frame.
    fn allocate_physical_page(&mut self) -> (phys: usize)
        requires
            old(self).next_phys + PAGE_SIZE <= usize::MAX,
        ensures
            phys == old(self).next_phys,
            final(self).next_phys == old(self).next_phys + PAGE_SIZE,
            final(self).next_addr == old(self).next_addr,
            final(self).regions@ == old(self).regions@,
    {
        let phys = self.next_phys;
        self.next_phys = phys + PAGE_SIZE;
        phys
    }
}

/// Reads a file's contents into a mapping. Files are not read into
/// mappings yet, so this always succeeds without reading.
fn load_file_data(fd: i32, offset: usize, addr: usize, length: usize) -> (r: Result<(), ()>)
    ensures
        r is Ok,
{
    Ok(())
}

/// Two different pages less than 2^20 pages apart land in different slot
/// pairs.
proof fn lemma_distinct_slots(base: usize, k: int, m: int)
    requires
        0 <= k < m,
        m - k < 0x100000,
        base + m * 4096 <= usize::MAX,
    ensures
        !hits(base, m, dir_index((base + k * 4096) as usize), table_index((base + k * 4096) as usize)),
{
    let x = (base + k * 4096) as usize;
    let y = (base + m * 4096) as usize;
    let delta = (m - k) as usize;
    assert(y == x + delta * 4096);
    assert(((x >> 22usize) & 0x3FFusize) == ((y >> 22usize) & 0x3FFusize)
        && ((x >> 12usize) & 0x3FFusize) == ((y >> 12usize) & 0x3FFusize)
        ==> ((x >> 12usize) & 0xFFFFFusize) == ((y >> 12usize) & 0xFFFFFusize)) by (bit_vector);
    assert(((x >> 12usize) & 0xFFFFFusize) != ((y >> 12usize) & 0xFFFFFusize)) by (bit_vector)
        requires
            y == x + delta * 4096,
            0 < delta < 0x100000,
    ;
}

/// What a mapping leaves, from `(s0, pt0)` to `(s1, pt1)`: the region is
/// recorded at `map_address`; an anonymous-address mapping moves the next
/// free address past it (whole pages); a private mapping takes fresh frames,
/// one per page, maps each page to its frame and keeps every other slot; a
/// shared one leaves the page tables and frames alone.
pub open spec fn mmapped(
    s0: MmapState,
    pt0: PageTables,
    s1: MmapState,
    pt1: PageTables,
    addr: usize,
    length: usize,
    flags: i32,
    fd: i32,
    offset: usize,
) -> bool {
    &&& s1.regions@ == s0.regions@.push(MmapRegion { addr: map_address(s0, addr), size: length, fd, offset })
    &&& s1.next_addr == (if addr == 0 { (s0.next_addr + page_round(length as int)) as usize } else { s0.next_addr })
    &&& flags & MAP_PRIVATE == 0 ==> pt1 == pt0 && s1.next_phys == s0.next_phys
    &&& flags & MAP_PRIVATE != 0 ==> ({
        let base = map_address(s0, addr);
        let pages = page_count(length as int);
        &&& s1.next_phys == s0.next_phys + pages * PAGE_SIZE
        &&& pages <= 0x100000 ==> forall|k: int| 0 <= k < pages ==> #[trigger] pt1.lookup((base + k * 4096) as usize)
            == Some(page_entry((s0.next_phys + k * 4096) as usize, MAP_FLAGS))
        &&& forall|d: int, t: int|
            0 <= d < 1024 && 0 <= t < 1024 && !(exists|k: int| 0 <= k < pages && #[trigger] hits(base, k, d, t))
                ==> kept(pt0, pt1, d, t)
    })
}

/// Maps `length` bytes at `addr` (or, for 0, at the next free range,
/// which then moves past it, rounded to whole pages). A private mapping
/// gets fresh frames, one per page, mapped user-writable. The mapping is
/// recorded and its address returned; it always succeeds.
pub fn mmap(
    state: &mut MmapState,
    pt: &mut PageTables,
    addr: usize,
    length: usize,
    prot: i32,
    flags: i32,
    fd: i32,
    offset: usize,
) -> (r: Result<usize, ()>)
    requires
        old(pt).wf(),
        mmap_fits(*old(state), *old(pt), addr, length, flags),
    ensures
        r == Ok::<usize, ()>(map_address(*old(state), addr)),
        final(pt).wf(),
        final(state).regions@ == old(state).regions@.push(
            MmapRegion { addr: map_address(*old(state), addr), size: length, fd, offset },
        ),
        final(state).next_addr == (if addr == 0 {
            (old(state).next_addr + page_round(length as int)) as usize
        } else {
            old(state).next_addr
        }),
        flags & MAP_PRIVATE == 0 ==> *final(pt) == *old(pt) && final(state).next_phys == old(state).next_phys,
        flags & MAP_PRIVATE != 0 ==> ({
            let base = map_address(*old(state), addr);
            let pages = page_count(length as int);
            &&& final(state).next_phys == old(state).next_phys + pages * PAGE_SIZE
            &&& pages <= 0x100000 ==> forall|k: int| 0 <= k < pages ==> #[trigger] final(pt).lookup(
                (base + k * 4096) as usize,
            ) == Some(page_entry((old(state).next_phys + k * 4096) as usize, MAP_FLAGS))
            &&& forall|d: int, t: int|
                0 <= d < 1024 && 0 <= t < 1024 && !(exists|k: int| 0 <= k < pages && #[trigger] hits(base, k, d, t))
                    ==> kept(*old(pt), *final(pt), d, t)
        }),
{
    let map_addr = if addr == 0 {
        state.find_free_region(length)
    } else {
        addr
    };
    let pages = (length + PAGE_SIZE - 1) / PAGE_SIZE;
    if (flags & MAP_PRIVATE) != 0 {
        let ghost pt0 = *pt;
        let ghost phys0 = state.next_phys;
        let mut i: usize = 0;
        while i < pages
            invariant
                pages == page_count(length as int),
                i <= pages,
                pt.wf(),
                map_addr + pages * 4096 <= usize::MAX,
                phys0 + pages * 4096 <= usize::MAX,
                pt0.next_table + pages * 4096 <= u32::MAX,
                state.next_phys == phys0 + i * PAGE_SIZE,
                pt.next_table <= pt0.next_table + i * 4096,
                state.regions@ == old(state).regions@,
                addr == 0 ==> state.next_addr == old(state).next_addr + page_round(length as int),
                addr != 0 ==> state.next_addr == old(state).next_addr,
                pages <= 0x100000 ==> forall|k: int| 0 <= k < i ==> #[trigger] pt.lookup((map_addr + k * 4096) as usize)
                    == Some(page_entry((phys0 + k * 4096) as usize, MAP_FLAGS)),
                forall|d: int, t: int|
                    0 <= d < 1024 && 0 <= t < 1024 && !(exists|k: int| 0 <= k < i && #[trigger] hits(map_addr, k, d, t))
                        ==> kept(pt0, *pt, d, t),
            decreases pages - i,
        {
            let phys = state.allocate_physical_page();
            let virt = map_addr + i * PAGE_SIZE;
            let ghost before = *pt;
            pt.map_page(virt, phys, MAP_FLAGS);
            proof {
                assert(virt == (map_addr + i * 4096) as usize);
                assert(phys == (phys0 + i * 4096) as usize);
                let d0 = dir_index(virt);
                let t0 = table_index(virt);
                assert(hits(map_addr, i as int, d0, t0));
                if pages <= 0x100000 {
                    assert forall|k: int| 0 <= k < i + 1 implies #[trigger] pt.lookup((map_addr + k * 4096) as usize)
                        == Some(page_entry((phys0 + k * 4096) as usize, MAP_FLAGS)) by {
                        let vk = (map_addr + k * 4096) as usize;
                        lemma_indices(vk);
                        if k < i {
                            lemma_distinct_slots(map_addr, k, i as int);
                            assert(before.lookup(vk) == Some(page_entry((phys0 + k * 4096) as usize, MAP_FLAGS)));
                            assert(!hits(map_addr, i as int, dir_index(vk), table_index(vk)));
                            if dir_index(vk) == d0 {
                                assert(table_index(vk) != t0);
                                assert(present(before.dir@[d0]));
                                assert(pt.entry(d0, table_index(vk)) == before.entry(d0, table_index(vk)));
                            } else {
                                assert(pt.entry(dir_index(vk), table_index(vk)) == before.entry(dir_index(vk), table_index(vk)));
                            }
                        } else {
                            assert(vk == virt);
                        }
                    }
                }
                assert forall|d: int, t: int|
                    0 <= d < 1024 && 0 <= t < 1024 && !(exists|k: int| 0 <= k < i + 1 && #[trigger] hits(map_addr, k, d, t))
                        implies kept(pt0, *pt, d, t) by {
                    assert(!(exists|k: int| 0 <= k < i && #[trigger] hits(map_addr, k, d, t)));
                    assert(kept(pt0, before, d, t));
                    assert(d != d0 || t != t0);
                }
            }
            i += 1;
        }
    }
    let loaded = if fd >= 0 {
        load_file_data(fd, offset, map_addr, length)
    } else {
        Ok(())
    };
    match loaded {
        Ok(()) => {},
        Err(e) => {
            return Err(e);
        },
    }
    state.regions.push(MmapRegion { addr: map_addr, size: length, fd, offset });
    Ok(map_addr)
}

/// Unmapping what was just mapped forgets it: after a region is recorded,
/// dropping the mappings with its start and length leaves what dropping
/// them would have left before.
pub proof fn lemma_unmap_after_map(regions: Seq<MmapRegion>, r: MmapRegion)
    ensures
        regions.push(r).filter(|g: MmapRegion| g.addr != r.addr || g.size != r.size)
            == regions.filter(|g: MmapRegion| g.addr != r.addr || g.size != r.size),
{
    reveal(Seq::filter);
    assert(regions.push(r).drop_last() =~= regions);
}

/// Drops every mapping that starts at `addr` with exactly `length` bytes;
/// page tables are left as they are. Always succeeds.
pub fn munmap(state: &mut MmapState, addr: usize, length: usize) -> (r: Result<(), ()>)
    ensures
        r is Ok,
        final(state).regions@ == old(state).regions@.filter(|g: MmapRegion| g.addr != addr || g.size != length),
        final(state).next_addr == old(state).next_addr,
        final(state).next_phys == old(state).next_phys,
{
    let ghost pred = |g: MmapRegion| g.addr != addr || g.size != length;
    let mut kept: Vec<MmapRegion> = Vec::new();
    let mut i: usize = 0;
    while i < state.regions.len()
        invariant
            i <= state.regions@.len(),
            state.regions@ == old(state).regions@,
            pred == (|g: MmapRegion| g.addr != addr || g.size != length),
            kept@ == state.regions@.take(i as int).filter(pred),
        decreases state.regions@.len() - i,
    {
        let g = state.regions[i];
        let ghost before = kept@;
        if g.addr != addr || g.size != length {
            kept.push(g);
        }
        proof {
            let s = state.regions@.take(i as int + 1);
            assert(s.drop_last() =~= state.regions@.take(i as int));
            assert(s.last() == g);
            reveal_with_fuel(Seq::filter, 1);
            assert(pred(g) == (g.addr != addr || g.size != length));
            assert(s.filter(pred) == (if pred(g) { before.push(g) } else { before }));
        }
        i += 1;
    }
    proof {
        assert(state.regions@.take(i as int) =~= state.regions@);
    }
    state.regions = kept;
    Ok(())
}

/// Rounding up to whole pages gives a multiple of the page at least as
/// large as the size.
proof fn lemma_page_round(size: int)
    requires
        size >= 0,
    ensures
        page_round(size) % 4096 == 0,
        size <= page_round(size) < size + 4096,
{
    let q = (size + 4095) / 4096;
    assert(q * 4096 % 4096 == 0) by (nonlinear_arith);
    assert(q * 4096 <= size + 4095 && q * 4096 > size + 4095 - 4096) by (nonlinear_arith)
        requires
            q == (size + 4095) / 4096,
            size >= 0,
    ;
}

/// Mappings placed by the kernel (address 0) are laid out one after the
/// other: each starts at the next free address, which stays page-aligned,
/// and the next one starts past its end. So every such mapping is
/// page-aligned, at or above `MMAP_START` when the state began there, and
/// disjoint from every earlier one.
pub proof fn lemma_anonymous_mmap_placed(
    s0: MmapState,
    pt0: PageTables,
    s1: MmapState,
    pt1: PageTables,
    length: usize,
    flags: i32,
    fd: i32,
    offset: usize,
)
    requires
        s0.next_addr % 4096 == 0,
        s0.next_addr + page_round(length as int) <= usize::MAX,
        mmapped(s0, pt0, s1, pt1, 0, length, flags, fd, offset),
    ensures
        s1.regions@.last().addr == s0.next_addr,
        s1.regions@.last().addr % 4096 == 0,
        s1.regions@.last().addr + length <= s1.next_addr,
        s1.next_addr % 4096 == 0,
        s0.next_addr <= s1.next_addr,
{
    lemma_page_round(length as int);
}

} // verus!
