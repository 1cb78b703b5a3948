use std::collections::BTreeMap;
use vstd::prelude::*;

verus! {

broadcast use vstd::std_specs::btree::group_btree_axioms;

/// Where the first shared-memory mapping is placed.
pub const SHM_MAPPING_BASE: usize = 0x7000_0000;

/// A client's shared-memory pool: the file it came from, its size, and the
/// address it is mapped at.
#[derive(Clone, Copy)]
pub struct ShmPool {
    pub fd: i32,
    pub size: usize,
    pub mapping: usize,
}

/// The pools by file descriptor, and the address the next mapping gets.
pub struct ShmState {
    pub pools: BTreeMap<i32, ShmPool>,
    pub next_mapping: usize,
}

/// `size` rounded up to whole 4 KiB pages.
pub open spec fn page_round(size: int) -> int {
    ((size + 4095) / 4096) * 4096
}

/// Mapping a pool of `size` bytes neither overflows the size rounding nor
/// the next mapping address.
pub open spec fn mapping_fits(next: usize, size: usize) -> bool {
    size + 4095 <= usize::MAX && next + page_round(size as int) <= usize::MAX
}

impl ShmState {
    pub fn new() -> (s: Self)
        ensures
            s.pools@ == Map::<i32, ShmPool>::empty(),
            s.next_mapping == SHM_MAPPING_BASE,
    {
        ShmState { pools: BTreeMap::new(), next_mapping: SHM_MAPPING_BASE }
    }

    /// Hands out the next mapping address and moves past `size` bytes,
    /// rounded up to whole pages.
    pub(crate) fn allocate_shm_mapping(&mut self, size: usize) -> (addr: usize)
        requires
            mapping_fits(old(self).next_mapping, size),
        ensures
            addr == old(self).next_mapping,
            final(self).next_mapping == old(self).next_mapping + page_round(size as int),
            final(self).pools == old(self).pools,
    {
        let addr = self.next_mapping;
        let s = size + 4095;
        let rounded = s & !4095usize;
        assert(rounded == (s / 4096) * 4096) by (bit_vector)
            requires
                rounded == s & !4095usize,
        ;
        self.next_mapping = addr + rounded;
        addr
    }
}

/// Registers a pool for `fd` (replacing one already there), mapped at the
/// next mapping address. Always succeeds.
pub fn create_pool(state: &mut ShmState, fd: i32, size: usize) -> (r: Result<(), ()>)
    requires
        mapping_fits(old(state).next_mapping, size),
    ensures
        r is Ok,
        final(state).pools@ == old(state).pools@.insert(
            fd,
            ShmPool { fd, size, mapping: old(state).next_mapping },
        ),
        final(state).next_mapping == old(state).next_mapping + page_round(size as int),
{
    let mapping = state.allocate_shm_mapping(size);
    state.pools.insert(fd, ShmPool { fd, size, mapping });
    Ok(())
}

/// The address `offset` bytes into the pool of `fd`, or `None` when `fd`
/// has no pool.
pub fn get_pool_data(state: &ShmState, fd: i32, offset: usize) -> (r: Option<usize>)
    requires
        state.pools@.contains_key(fd) ==> state.pools@[fd].mapping + offset <= usize::MAX,
    ensures
        r == (if state.pools@.contains_key(fd) {
            Some((state.pools@[fd].mapping + offset) as usize)
        } else {
            None::<usize>
        }),
{
    match state.pools.get(&fd) {
        Some(pool) => Some(pool.mapping + offset),
        None => None,
    }
}

/// Forgets the pool of `fd`.
pub fn destroy_pool(state: &mut ShmState, fd: i32)
    ensures
        final(state).pools@ == old(state).pools@.remove(fd),
        final(state).next_mapping == old(state).next_mapping,
{
    state.pools.remove(&fd);
}

/// Rounding up to whole pages gives a multiple of the page at least as
/// large as the size.
proof fn lemma_page_round(size: int)
    requires
        size >= 0,
    ensures
        page_round(size) % 4096 == 0,
        size <= page_round(size) < size + 4096,
{
    let q = (size + 4095) / 4096;
    assert(q * 4096 % 4096 == 0) by (nonlinear_arith);
    assert(q * 4096 <= size + 4095 && q * 4096 > size + 4095 - 4096) by (nonlinear_arith)
        requires
            q == (size + 4095) / 4096,
            size >= 0,
    ;
}

/// Every pool lies in the shared-memory area, page-aligned, below the next
/// mapping address, and no two pools overlap.
pub open spec fn pools_placed(pools: Map<i32, ShmPool>, next: usize) -> bool {
    &&& next % 4096 == 0
    &&& SHM_MAPPING_BASE <= next
    &&& forall|f: i32| #[trigger] pools.contains_key(f) ==> {
        &&& pools[f].mapping % 4096 == 0
        &&& SHM_MAPPING_BASE <= pools[f].mapping
        &&& pools[f].mapping + pools[f].size <= next
    }
    &&& forall|f: i32, g: i32| #[trigger] pools.contains_key(f) && #[trigger] pools.contains_key(g) && f != g
        ==> pools[f].mapping + pools[f].size <= pools[g].mapping || pools[g].mapping + pools[g].size <= pools[f].mapping
}

/// An empty pool table is placed.
pub proof fn lemma_new_pools_placed()
    ensures
        pools_placed(Map::<i32, ShmPool>::empty(), SHM_MAPPING_BASE),
{
}

/// Creating a pool keeps every pool placed: the new one starts at the next
/// mapping address, page-aligned, past every other pool, and the next
/// address moves past it to a page boundary.
pub proof fn lemma_create_pool_placed(pools: Map<i32, ShmPool>, next: usize, fd: i32, size: usize)
    requires
        pools_placed(pools, next),
        mapping_fits(next, size),
    ensures
        pools_placed(pools.insert(fd, ShmPool { fd, size, mapping: next }), (next + page_round(size as int)) as usize),
{
    lemma_page_round(size as int);
    let p2 = pools.insert(fd, ShmPool { fd, size, mapping: next });
    let n2 = (next + page_round(size as int)) as usize;
    assert forall|f: i32, g: i32| #[trigger] p2.contains_key(f) && #[trigger] p2.contains_key(g) && f != g
        implies p2[f].mapping + p2[f].size <= p2[g].mapping || p2[g].mapping + p2[g].size <= p2[f].mapping by {
        if f != fd && g != fd {
            assert(pools.contains_key(f) && pools.contains_key(g));
        } else if f == fd {
            assert(pools.contains_key(g));
        } else {
            assert(pools.contains_key(f));
        }
    }
    assert forall|f: i32| #[trigger] p2.contains_key(f) implies p2[f].mapping % 4096 == 0
        && SHM_MAPPING_BASE <= p2[f].mapping && p2[f].mapping + p2[f].size <= n2 by {
        if f != fd {
            assert(pools.contains_key(f));
        }
    }
}

/// Destroying a pool keeps the others placed.
pub proof fn lemma_destroy_pool_placed(pools: Map<i32, ShmPool>, next: usize, fd: i32)
    requires
        pools_placed(pools, next),
    ensures
        pools_placed(pools.remove(fd), next),
{
    let p2 = pools.remove(fd);
    assert forall|f: i32, g: i32| #[trigger] p2.contains_key(f) && #[trigger] p2.contains_key(g) && f != g
        implies p2[f].mapping + p2[f].size <= p2[g].mapping || p2[g].mapping + p2[g].size <= p2[f].mapping by {
        assert(pools.contains_key(f) && pools.contains_key(g));
    }
    assert forall|f: i32| #[trigger] p2.contains_key(f) implies p2[f].mapping % 4096 == 0
        && SHM_MAPPING_BASE <= p2[f].mapping && p2[f].mapping + p2[f].size <= next by {
        assert(pools.contains_key(f));
    }
}

} // verus!
