use std::collections::BTreeMap;
use vstd::prelude::*;
use crate::drivers::block::{
    BlockRegistry, DiskView, lemma_registry_read_after_write, ram_sector, read_sectors, registry_in_range,
    registry_read, registry_write, write_sectors,
};

verus! {

broadcast use vstd::std_specs::btree::group_btree_axioms;

/// Entries the cache holds before it evicts.
pub const CACHE_SIZE: usize = 256;

/// One cached sector.
#[derive(Clone, Copy)]
pub struct CacheEntry {
    pub device: usize,
    pub sector: u64,
    pub data: [u8; 512],
    pub dirty: bool,
}

/// A write-back cache of sectors: entries in insertion order, and an index
/// from `(device, sector)` to an entry's position. Evicting the oldest entry
/// shifts the others down without renumbering the index, so after an
/// eviction the index can point one entry past the sector it names.
pub struct BlockCache {
    pub entries: Vec<CacheEntry>,
    pub map: BTreeMap<(usize, u64), usize>,
}

/// The cache as values: its entries and its index.
pub type CacheView = (Seq<CacheEntry>, Map<(usize, u64), usize>);

impl BlockCache {
    pub fn new() -> (c: Self)
        ensures
            c.wf(),
            c.view() == (Seq::<CacheEntry>::empty(), Map::<(usize, u64), usize>::empty()),
    {
        BlockCache { entries: Vec::new(), map: BTreeMap::new() }
    }

    pub open spec fn view(&self) -> CacheView {
        (self.entries@, self.map@)
    }

    /// Every index entry points at an entry.
    pub open spec fn wf(&self) -> bool {
        forall|k: (usize, u64)| self.map@.contains_key(k) ==> #[trigger] self.map@[k] < self.entries@.len()
    }
}

/// The bytes the cache answers for a sector it indexes.
pub open spec fn cached(c: CacheView, device: usize, sector: u64) -> Seq<u8> {
    c.0[c.1[(device, sector)] as int].data@
}

/// Eviction: the oldest entry leaves (written back first when dirty) and its
/// index entry is dropped; nothing happens to an empty cache.
pub open spec fn evict_spec(c: CacheView, r: Seq<DiskView>) -> (CacheView, Seq<DiskView>) {
    if c.0.len() > 0 {
        let e = c.0[0];
        let r2 = if e.dirty { registry_write(r, e.device, e.sector, e.data@, 1) } else { r };
        ((c.0.drop_first(), c.1.remove((e.device, e.sector))), r2)
    } else {
        (c, r)
    }
}

/// The cache (and devices) before the new entry is appended: evicted when full.
pub open spec fn before_insert(c: CacheView, r: Seq<DiskView>) -> (CacheView, Seq<DiskView>) {
    if c.0.len() >= CACHE_SIZE { evict_spec(c, r) } else { (c, r) }
}

/// `c2` is `c` with a clean entry for `(device, sector)` holding `bytes`
/// appended (after an eviction when full) and indexed; `r2` the devices.
pub open spec fn inserted(c: CacheView, r: Seq<DiskView>, device: usize, sector: u64, bytes: Seq<u8>, dirty: bool, c2: CacheView, r2: Seq<DiskView>) -> bool {
    let (mid, rm) = before_insert(c, r);
    &&& r2 == rm
    &&& c2.0.len() == mid.0.len() + 1
    &&& c2.0.drop_last() == mid.0
    &&& c2.0.last().device == device
    &&& c2.0.last().sector == sector
    &&& c2.0.last().data@ == bytes
    &&& c2.0.last().dirty == dirty
    &&& c2.1.contains_key((device, sector))
    &&& c2.1[(device, sector)] == mid.0.len()
    &&& c2.1 == mid.1.insert((device, sector), c2.1[(device, sector)])
}

/// What `read_block` does: answers from the cache when the sector is
/// indexed; else reads the device, failing with nothing changed, or caching
/// what it read.
pub open spec fn read_block_post(c: CacheView, r: Seq<DiskView>, device: usize, sector: u64, res: Option<Seq<u8>>, c2: CacheView, r2: Seq<DiskView>) -> bool {
    if c.1.contains_key((device, sector)) {
        res == Some(cached(c, device, sector)) && c2 == c && r2 == r
    } else {
        match registry_read(r, device, sector, 1) {
            None => res is None && c2 == c && r2 == r,
            Some(bytes) => res == Some(bytes) && inserted(c, r, device, sector, bytes, false, c2, r2),
        }
    }
}

/// What `write_block` does: overwrites the indexed entry and marks it
/// dirty; else appends a dirty entry (evicting when full).
pub open spec fn write_block_post(c: CacheView, r: Seq<DiskView>, device: usize, sector: u64, bytes: Seq<u8>, c2: CacheView, r2: Seq<DiskView>) -> bool {
    if c.1.contains_key((device, sector)) {
        let i = c.1[(device, sector)] as int;
        &&& c2.1 == c.1
        &&& r2 == r
        &&& c2.0.len() == c.0.len()
        &&& forall|j: int| 0 <= j < c.0.len() && j != i ==> c2.0[j] == c.0[j]
        &&& c2.0[i].device == c.0[i].device && c2.0[i].sector == c.0[i].sector
        &&& c2.0[i].data@ == bytes
        &&& c2.0[i].dirty
    } else {
        inserted(c, r, device, sector, bytes, true, c2, r2)
    }
}

/// Every device write the cache may do stays in range: true of any RAM
/// disk sector, and the image refuses writes without arithmetic.
proof fn lemma_write_back_in_range(r: Seq<DiskView>, device: usize, sector: u64)
    ensures
        crate::drivers::block::registry_write_in_range(r, device, sector, 1),
{
}

impl BlockCache {
    /// The position of the entry indexed for `(device, sector)`.
    fn get(&self, device: usize, sector: u64) -> (r: Option<usize>)
        ensures
            r == (if self.map@.contains_key((device, sector)) { Some(self.map@[(device, sector)]) } else { None::<usize> }),
    {
        match self.map.get(&(device, sector)) {
            Some(idx) => Some(*idx),
            None => None,
        }
    }

    /// Drops the oldest entry, writing it back first when dirty.
    fn evict(&mut self, reg: &mut BlockRegistry)
        requires
            old(self).wf(),
        ensures
            (final(self).view(), final(reg).view()) == evict_spec(old(self).view(), old(reg).view()),
            final(self).view().0.len() == (if old(self).view().0.len() > 0 { old(self).view().0.len() - 1 } else { 0 }),
    {
        if self.entries.len() > 0 {
            let entry = self.entries[0];
            if entry.dirty {
                proof {
                    lemma_write_back_in_range(reg.view(), entry.device, entry.sector);
                }
                let _ = write_sectors(reg, entry.device, entry.sector, 1, &entry.data);
            }
            self.map.remove(&(entry.device, entry.sector));
            self.entries.remove(0);
            proof {
                assert(self.entries@ =~= old(self).entries@.drop_first());
            }
        }
    }

    /// Appends a clean entry, evicting first when full, and indexes it.
    fn insert(&mut self, reg: &mut BlockRegistry, device: usize, sector: u64, data: &[u8; 512])
        requires
            old(self).wf(),
        ensures
            final(self).wf(),
            inserted(old(self).view(), old(reg).view(), device, sector, data@, false, final(self).view(), final(reg).view()),
    {
        if self.entries.len() >= CACHE_SIZE {
            self.evict(reg);
        }
        let ghost mid = self.view();
        let idx = self.entries.len();
        self.entries.push(CacheEntry { device, sector, data: *data, dirty: false });
        self.map.insert((device, sector), idx);
        proof {
            assert(self.entries@.drop_last() =~= mid.0);
            assert forall|k: (usize, u64)| self.map@.contains_key(k) implies #[trigger] self.map@[k] < self.entries@.len() by {
                if k != (device, sector) {
                    assert(mid.1.contains_key(k));
                    assert(self.map@[k] == mid.1[k]);
                    assert(old(self).map@.contains_key(k));
                    assert(mid.1[k] == old(self).map@[k]);
                    assert(old(self).map@[k] < old(self).entries@.len());
                }
            }
        }
    }

    /// Marks the indexed entry for `(device, sector)` dirty.
    fn mark_dirty(&mut self, device: usize, sector: u64)
        requires
            old(self).wf(),
        ensures
            final(self).wf(),
            final(self).map@ == old(self).map@,
            old(self).map@.contains_key((device, sector)) ==> final(self).entries@ == old(self).entries@.update(
                old(self).map@[(device, sector)] as int,
                CacheEntry { dirty: true, ..old(self).entries@[old(self).map@[(device, sector)] as int] },
            ),
            !old(self).map@.contains_key((device, sector)) ==> final(self).entries@ == old(self).entries@,
    {
        if let Some(idx) = self.get(device, sector) {
            let mut e = self.entries[idx];
            e.dirty = true;
            self.entries.set(idx, e);
        }
    }
}

/// The devices after writing back every dirty entry from position `n` on,
/// in order.
pub open spec fn flushed(r: Seq<DiskView>, entries: Seq<CacheEntry>, n: int) -> Seq<DiskView>
    decreases entries.len() - n,
{
    if n < 0 || n >= entries.len() {
        r
    } else {
        let e = entries[n];
        flushed(if e.dirty { registry_write(r, e.device, e.sector, e.data@, 1) } else { r }, entries, n + 1)
    }
}

impl BlockCache {
    /// Writes every dirty entry back, in order. Entries stay cached and stay
    /// marked dirty; write errors are ignored.
    fn flush(&self, reg: &mut BlockRegistry)
        ensures
            final(reg).view() == flushed(old(reg).view(), self.entries@, 0),
    {
        let mut i: usize = 0;
        while i < self.entries.len()
            invariant
                i <= self.entries@.len(),
                flushed(reg.view(), self.entries@, i as int) == flushed(old(reg).view(), self.entries@, 0),
            decreases self.entries@.len() - i,
        {
            let entry = self.entries[i];
            if entry.dirty {
                proof {
                    lemma_write_back_in_range(reg.view(), entry.device, entry.sector);
                }
                let _ = write_sectors(reg, entry.device, entry.sector, 1, &entry.data);
            }
            i += 1;
        }
    }
}

/// Nothing to set up.
pub fn init() {
}

/// Reads a sector through the cache (see `read_block_post`).
pub fn read_block(cache: &mut BlockCache, reg: &mut BlockRegistry, device: usize, sector: u64, buffer: &mut [u8; 512]) -> (r: Result<(), ()>)
    requires
        old(cache).wf(),
        registry_in_range(old(reg).view(), device, sector, 1),
    ensures
        final(cache).wf(),
        read_block_post(old(cache).view(), old(reg).view(), device, sector,
            if r is Ok { Some(final(buffer)@) } else { None::<Seq<u8>> },
            final(cache).view(), final(reg).view()),
        r is Err ==> final(buffer)@ == old(buffer)@,
{
    if let Some(idx) = cache.get(device, sector) {
        *buffer = cache.entries[idx].data;
        return Ok(());
    }
    let r = read_sectors(reg, device, sector, 1, buffer);
    match r {
        Ok(()) => {},
        Err(()) => {
            return Err(());
        },
    }
    proof {
        assert(buffer@ =~= buffer@.subrange(0, 512) + old(buffer)@.skip(512));
    }
    cache.insert(reg, device, sector, buffer);
    Ok(())
}

/// Writes a sector into the cache (see `write_block_post`); the device is
/// written when the entry is evicted or flushed. Never fails.
pub fn write_block(cache: &mut BlockCache, reg: &mut BlockRegistry, device: usize, sector: u64, buffer: &[u8; 512]) -> (r: Result<(), ()>)
    requires
        old(cache).wf(),
    ensures
        final(cache).wf(),
        r is Ok,
        write_block_post(old(cache).view(), old(reg).view(), device, sector, buffer@, final(cache).view(), final(reg).view()),
{
    if let Some(idx) = cache.get(device, sector) {
        let mut e = cache.entries[idx];
        e.data = *buffer;
        cache.entries.set(idx, e);
        cache.mark_dirty(device, sector);
        return Ok(());
    }
    cache.insert(reg, device, sector, buffer);
    let ghost ins = cache.view();
    cache.mark_dirty(device, sector);
    proof {
        let (mid, rm) = before_insert(old(cache).view(), old(reg).view());
        let last = mid.0.len() as int;
        assert(ins.1[(device, sector)] == last);
        assert(cache.entries@ == ins.0.update(last, CacheEntry { dirty: true, ..ins.0[last] }));
        assert(cache.entries@.drop_last() =~= mid.0);
    }
    Ok(())
}

/// Writes every dirty entry back to its device.
pub fn flush(cache: &BlockCache, reg: &mut BlockRegistry)
    ensures
        final(reg).view() == flushed(old(reg).view(), cache.entries@, 0),
{
    cache.flush(reg);
}

/// Reading a sector right after writing it gives back the written bytes,
/// without touching any device.
pub proof fn lemma_read_after_write(
    c0: CacheView,
    r0: Seq<DiskView>,
    device: usize,
    sector: u64,
    bytes: Seq<u8>,
    c1: CacheView,
    r1: Seq<DiskView>,
    res: Option<Seq<u8>>,
    c2: CacheView,
    r2: Seq<DiskView>,
)
    requires
        write_block_post(c0, r0, device, sector, bytes, c1, r1),
        read_block_post(c1, r1, device, sector, res, c2, r2),
    ensures
        res == Some(bytes),
        c2 == c1,
        r2 == r1,
{
    assert(c1.1.contains_key((device, sector)));
    if !c0.1.contains_key((device, sector)) {
        let (mid, rm) = before_insert(c0, r0);
        assert(c1.1[(device, sector)] == mid.0.len());
        assert(c1.0[mid.0.len() as int] == c1.0.last());
    }
}

/// The index names, for each sector it holds, an entry for that sector
/// with no later entry for the same sector.
pub open spec fn index_newest(c: CacheView) -> bool {
    forall|k: (usize, u64)| #[trigger] c.1.contains_key(k) ==> {
        &&& c.1[k] < c.0.len()
        &&& c.0[c.1[k] as int].device == k.0 && c.0[c.1[k] as int].sector == k.1
        &&& forall|j: int| c.1[k] < j < c.0.len() ==> !(#[trigger] c.0[j].device == k.0 && c.0[j].sector == k.1)
    }
}

/// A dirty entry for sector `s` of device `d`.
pub open spec fn dirty_for(e: CacheEntry, d: usize, s: u64) -> bool {
    e.dirty && e.device == d && e.sector == s
}

/// Writing one sector elsewhere leaves a sector of a RAM disk as it was.
proof fn lemma_write_elsewhere(r: Seq<DiskView>, d: usize, s: u64, d2: usize, s2: u64, data: Seq<u8>)
    requires
        d < r.len(),
        r[d as int].0,
        !(d2 == d && s2 == s),
    ensures
        registry_write(r, d2, s2, data, 1)[d as int].0,
        registry_write(r, d2, s2, data, 1).len() == r.len(),
        registry_read(registry_write(r, d2, s2, data, 1), d, s, 1) == registry_read(r, d, s, 1),
{
    let r2 = registry_write(r, d2, s2, data, 1);
    if d2 == d {
        let m = r[d as int].1;
        let m2 = r2[d as int].1;
        reveal_with_fuel(crate::drivers::block::ram_write, 2);
        reveal_with_fuel(crate::drivers::block::ram_read, 2);
        assert(m2 == m.insert(s2, data.subrange(0, 512)));
        assert(ram_sector(m2, s as int) == ram_sector(m, s as int));
        assert(crate::drivers::block::ram_read(m2, s as int, 1) =~= crate::drivers::block::ram_read(m, s as int, 1));
    }
}

/// Flushing entries that hold no dirty entry for a sector of a RAM disk
/// leaves that sector as it was.
proof fn lemma_flush_keeps(r: Seq<DiskView>, es: Seq<CacheEntry>, n: int, d: usize, s: u64)
    requires
        0 <= n,
        d < r.len(),
        r[d as int].0,
        forall|j: int| n <= j < es.len() ==> !dirty_for(#[trigger] es[j], d, s),
    ensures
        registry_read(flushed(r, es, n), d, s, 1) == registry_read(r, d, s, 1),
    decreases es.len() - n,
{
    if n < es.len() {
        let e = es[n];
        let r2 = if e.dirty { registry_write(r, e.device, e.sector, e.data@, 1) } else { r };
        if e.dirty {
            lemma_write_elsewhere(r, d, s, e.device, e.sector, e.data@);
        }
        lemma_flush_keeps(r2, es, n + 1, d, s);
    }
}

/// Flushing writes back the last dirty entry for a sector of a RAM disk:
/// afterwards the sector reads as that entry's bytes.
proof fn lemma_flush_last(r: Seq<DiskView>, es: Seq<CacheEntry>, n: int, i: int, d: usize, s: u64)
    requires
        0 <= n <= i < es.len(),
        d < r.len(),
        r[d as int].0,
        dirty_for(es[i], d, s),
        forall|j: int| i < j < es.len() ==> !dirty_for(#[trigger] es[j], d, s),
    ensures
        registry_read(flushed(r, es, n), d, s, 1) == Some(es[i].data@),
    decreases es.len() - n,
{
    let e = es[n];
    let r2 = if e.dirty { registry_write(r, e.device, e.sector, e.data@, 1) } else { r };
    if n < i {
        if e.dirty {
            if e.device == d && e.sector == s {
                lemma_registry_read_after_write(r, d, s, e.data@, 1);
            } else {
                lemma_write_elsewhere(r, d, s, e.device, e.sector, e.data@);
            }
        }
        lemma_flush_last(r2, es, n + 1, i, d, s);
    } else {
        assert(e.data@.len() == 512);
        lemma_registry_read_after_write(r, d, s, e.data@, 1);
        assert(e.data@.subrange(0, 512) =~= e.data@);
        lemma_flush_keeps(r2, es, n + 1, d, s);
    }
}

/// A sector written through the cache reaches its device at the next
/// flush: afterwards a RAM disk gives back the bytes written. This holds
/// when the write evicts nothing and the index names the newest entry for
/// each sector it holds.
pub proof fn lemma_flush_after_write(
    c0: CacheView,
    r0: Seq<DiskView>,
    d: usize,
    s: u64,
    bytes: Seq<u8>,
    c1: CacheView,
    r1: Seq<DiskView>,
)
    requires
        c0.0.len() < CACHE_SIZE,
        index_newest(c0),
        d < r0.len(),
        r0[d as int].0,
        write_block_post(c0, r0, d, s, bytes, c1, r1),
    ensures
        registry_read(flushed(r1, c1.0, 0), d, s, 1) == Some(bytes),
{
    if c0.1.contains_key((d, s)) {
        let i = c0.1[(d, s)] as int;
        assert(dirty_for(c1.0[i], d, s));
        assert forall|j: int| i < j < c1.0.len() implies !dirty_for(#[trigger] c1.0[j], d, s) by {
            assert(c1.0[j] == c0.0[j]);
            assert(!(c0.0[j].device == d && c0.0[j].sector == s));
        }
        lemma_flush_last(r1, c1.0, 0, i, d, s);
    } else {
        let i = c0.0.len() as int;
        assert(c1.0[i] == c1.0.last());
        lemma_flush_last(r1, c1.0, 0, i, d, s);
    }
}

} // verus!
