use vstd::prelude::*;
use crate::drivers::block::{BlockRegistry, DiskView, registry_in_range, registry_read, registry_write, view_write};
use crate::fs::cache::{
    BlockCache, CACHE_SIZE, CacheEntry, CacheView, before_insert, evict_spec, inserted, read_block,
    read_block_post, write_block, write_block_post,
};

verus! {

/// A cached sector as values: device, sector, bytes, dirty.
pub type SectorEntry = (usize, u64, Seq<u8>, bool);

/// The cache and the devices as values: the cached sectors in insertion
/// order, the cache's index, and the devices.
pub type Store = (Seq<SectorEntry>, Map<(usize, u64), usize>, Seq<DiskView>);

pub open spec fn entry_view(e: CacheEntry) -> SectorEntry {
    (e.device, e.sector, e.data@, e.dirty)
}

pub open spec fn store_of(c: CacheView, r: Seq<DiskView>) -> Store {
    (c.0.map_values(|e: CacheEntry| entry_view(e)), c.1, r)
}

/// The store after the oldest cached sector leaves (written back when dirty).
pub open spec fn st_evict(st: Store) -> Store {
    if st.0.len() > 0 {
        let e = st.0[0];
        let r = if e.3 { registry_write(st.2, e.0, e.1, e.2, 1) } else { st.2 };
        (st.0.drop_first(), st.1.remove((e.0, e.1)), r)
    } else {
        st
    }
}

/// The store after a sector is appended to the cache (evicting first when
/// full) and indexed.
pub open spec fn st_insert(st: Store, d: usize, s: u64, bytes: Seq<u8>, dirty: bool) -> Store {
    let m = if st.0.len() >= CACHE_SIZE { st_evict(st) } else { st };
    (m.0.push((d, s, bytes, dirty)), m.1.insert((d, s), m.0.len() as usize), m.2)
}

/// Reading sector `s` of device `d` stays within the device's own
/// arithmetic.
pub open spec fn st_fits(st: Store, d: usize, s: u64) -> bool {
    registry_in_range(st.2, d, s, 1)
}

/// A sector read: the cached bytes when the sector is indexed, else the
/// device's bytes, which are then cached; `None`, with nothing cached, when
/// the device cannot give the sector (no such device, or a sector past the
/// end of an image).
pub open spec fn st_read(st: Store, d: usize, s: u64) -> Option<(Seq<u8>, Store)> {
    if st.1.contains_key((d, s)) {
        Some((st.0[st.1[(d, s)] as int].2, st))
    } else {
        match registry_read(st.2, d, s, 1) {
            Some(bytes) => Some((bytes, st_insert(st, d, s, bytes, false))),
            None => None,
        }
    }
}

/// A sector write: the indexed entry takes the bytes and turns dirty, or a
/// dirty entry is appended.
pub open spec fn st_write(st: Store, d: usize, s: u64, bytes: Seq<u8>) -> Store {
    if st.1.contains_key((d, s)) {
        let i = st.1[(d, s)] as int;
        (st.0.update(i, (st.0[i].0, st.0[i].1, bytes, true)), st.1, st.2)
    } else {
        st_insert(st, d, s, bytes, true)
    }
}

proof fn lemma_evict_matches(c: CacheView, r: Seq<DiskView>)
    ensures
        store_of(evict_spec(c, r).0, evict_spec(c, r).1) == st_evict(store_of(c, r)),
{
    let st = store_of(c, r);
    if c.0.len() > 0 {
        let e = c.0[0];
        assert(st.0[0] == entry_view(e));
        assert(evict_spec(c, r).0.0.map_values(|e: CacheEntry| entry_view(e)) =~= st.0.drop_first());
    }
}

proof fn lemma_insert_matches(c: CacheView, r: Seq<DiskView>, d: usize, s: u64, bytes: Seq<u8>, dirty: bool, c2: CacheView, r2: Seq<DiskView>)
    requires
        inserted(c, r, d, s, bytes, dirty, c2, r2),
    ensures
        store_of(c2, r2) == st_insert(store_of(c, r), d, s, bytes, dirty),
{
    lemma_evict_matches(c, r);
    let (mid, rm) = before_insert(c, r);
    let st = store_of(c, r);
    let m = if st.0.len() >= CACHE_SIZE { st_evict(st) } else { st };
    assert(store_of(mid, rm) == m);
    assert(c2.0 =~= mid.0.push(c2.0.last()));
    assert(c2.0.map_values(|e: CacheEntry| entry_view(e)) =~= m.0.push((d, s, bytes, dirty)));
    assert(c2.1 =~= m.1.insert((d, s), m.0.len() as usize));
}

/// What `read_block` does, as values: the bytes and the store of `st_read`.
pub proof fn lemma_read_matches(c: CacheView, r: Seq<DiskView>, d: usize, s: u64, res: Option<Seq<u8>>, c2: CacheView, r2: Seq<DiskView>)
    requires
        forall|k: (usize, u64)| c.1.contains_key(k) ==> #[trigger] c.1[k] < c.0.len(),
        read_block_post(c, r, d, s, res, c2, r2),
    ensures
        match st_read(store_of(c, r), d, s) {
            Some((b, st1)) => res == Some(b) && store_of(c2, r2) == st1,
            None => res is None && c2 == c && r2 == r,
        },
{
    if c.1.contains_key((d, s)) {
        assert(store_of(c, r).0[c.1[(d, s)] as int] == entry_view(c.0[c.1[(d, s)] as int]));
    } else {
        match registry_read(r, d, s, 1) {
            Some(bytes) => {
                lemma_insert_matches(c, r, d, s, bytes, false, c2, r2);
            },
            None => {},
        }
    }
}

/// What `write_block` does, as values: the store of `st_write`.
pub proof fn lemma_write_matches(c: CacheView, r: Seq<DiskView>, d: usize, s: u64, bytes: Seq<u8>, c2: CacheView, r2: Seq<DiskView>)
    requires
        forall|k: (usize, u64)| c.1.contains_key(k) ==> #[trigger] c.1[k] < c.0.len(),
        write_block_post(c, r, d, s, bytes, c2, r2),
    ensures
        store_of(c2, r2) == st_write(store_of(c, r), d, s, bytes),
{
    if c.1.contains_key((d, s)) {
        let i = c.1[(d, s)] as int;
        assert(c2.0.map_values(|e: CacheEntry| entry_view(e)) =~= store_of(c, r).0.update(
            i,
            (c.0[i].device, c.0[i].sector, bytes, true),
        ));
    } else {
        lemma_insert_matches(c, r, d, s, bytes, true, c2, r2);
    }
}

/// The cache index names, for each sector it holds, an entry for that
/// sector (as it does until the first eviction).
pub open spec fn coherent(st: Store) -> bool {
    forall|k: (usize, u64)| #[trigger] st.1.contains_key(k) ==> {
        &&& st.1[k] < st.0.len()
        &&& st.0[st.1[k] as int].0 == k.0 && st.0[st.1[k] as int].1 == k.1
    }
}

/// What a read of a sector gives: the cached bytes when the sector is
/// indexed, else the device's.
pub open spec fn view_of(st: Store, d: usize, s: u64) -> Option<Seq<u8>> {
    if st.1.contains_key((d, s)) {
        Some(st.0[st.1[(d, s)] as int].2)
    } else {
        registry_read(st.2, d, s, 1)
    }
}

/// With room in a coherent cache, a read gives the sector's view, keeps
/// the cache coherent and the devices as they were, adds at most one
/// entry, and changes no sector's view.
pub proof fn lemma_read_view(st: Store, d: usize, s: u64)
    requires
        coherent(st),
        st.0.len() < CACHE_SIZE,
    ensures
        (st_read(st, d, s) is Some) == (view_of(st, d, s) is Some),
        st_read(st, d, s) matches Some((b, st1)) ==> {
            &&& Some(b) == view_of(st, d, s)
            &&& coherent(st1)
            &&& st1.2 == st.2
            &&& st1.0.len() <= st.0.len() + 1
            &&& forall|d2: usize, s2: u64| #[trigger] view_of(st1, d2, s2) == view_of(st, d2, s2)
        },
{
    if !st.1.contains_key((d, s)) {
        if let Some(bytes) = registry_read(st.2, d, s, 1) {
            let st1 = st_insert(st, d, s, bytes, false);
            assert(st1.0 == st.0.push((d, s, bytes, false)));
            assert forall|k: (usize, u64)| #[trigger] st1.1.contains_key(k) implies st1.1[k] < st1.0.len()
                && st1.0[st1.1[k] as int].0 == k.0 && st1.0[st1.1[k] as int].1 == k.1 by {
                if k != (d, s) {
                    assert(st.1.contains_key(k));
                }
            }
            assert forall|d2: usize, s2: u64| #[trigger] view_of(st1, d2, s2) == view_of(st, d2, s2) by {
                if (d2, s2) != (d, s) && st.1.contains_key((d2, s2)) {
                    assert(st1.1[(d2, s2)] == st.1[(d2, s2)]);
                }
            }
        }
    }
}

/// With room in a coherent cache, a write keeps the cache coherent and
/// the devices as they were, adds at most one entry, and changes the view
/// of that sector alone, to the bytes written.
pub proof fn lemma_write_view(st: Store, d: usize, s: u64, bytes: Seq<u8>)
    requires
        coherent(st),
        st.0.len() < CACHE_SIZE,
    ensures
        ({
            let st1 = st_write(st, d, s, bytes);
            &&& coherent(st1)
            &&& st1.2 == st.2
            &&& st1.0.len() <= st.0.len() + 1
            &&& view_of(st1, d, s) == Some(bytes)
            &&& forall|d2: usize, s2: u64| (d2, s2) != (d, s) ==> #[trigger] view_of(st1, d2, s2) == view_of(st, d2, s2)
        }),
{
    let st1 = st_write(st, d, s, bytes);
    if st.1.contains_key((d, s)) {
        let i = st.1[(d, s)] as int;
        assert forall|k: (usize, u64)| #[trigger] st1.1.contains_key(k) implies st1.1[k] < st1.0.len()
            && st1.0[st1.1[k] as int].0 == k.0 && st1.0[st1.1[k] as int].1 == k.1 by {
            assert(st.1.contains_key(k));
        }
        assert forall|d2: usize, s2: u64| (d2, s2) != (d, s) implies #[trigger] view_of(st1, d2, s2) == view_of(st, d2, s2) by {
            if st.1.contains_key((d2, s2)) {
                assert(st.1[(d2, s2)] != i || st.0[i].0 != d2 || st.0[i].1 != s2);
            }
        }
    } else {
        assert(st1.0 == st.0.push((d, s, bytes, true)));
        assert forall|k: (usize, u64)| #[trigger] st1.1.contains_key(k) implies st1.1[k] < st1.0.len()
            && st1.0[st1.1[k] as int].0 == k.0 && st1.0[st1.1[k] as int].1 == k.1 by {
            if k != (d, s) {
                assert(st.1.contains_key(k));
            }
        }
        assert forall|d2: usize, s2: u64| (d2, s2) != (d, s) implies #[trigger] view_of(st1, d2, s2) == view_of(st, d2, s2) by {
            if st.1.contains_key((d2, s2)) {
                assert(st1.1[(d2, s2)] == st.1[(d2, s2)]);
            }
        }
    }
}

/// A cache operation as a value: a read of `(device, sector)`, or a write
/// of `bytes` to it.
pub enum CacheOp {
    Read(usize, u64),
    Write(usize, u64, Seq<u8>),
}

/// The store after the operations in order (a read the device cannot
/// serve changes nothing).
pub open spec fn apply_ops(st: Store, ops: Seq<CacheOp>) -> Store
    decreases ops.len(),
{
    if ops.len() == 0 {
        st
    } else {
        let st1 = match ops[0] {
            CacheOp::Read(d, s) => match st_read(st, d, s) {
                Some((_, st1)) => st1,
                None => st,
            },
            CacheOp::Write(d, s, b) => st_write(st, d, s, b),
        };
        apply_ops(st1, ops.drop_first())
    }
}

/// No operation writes `(d, s)`.
pub open spec fn writes_not(ops: Seq<CacheOp>, d: usize, s: u64) -> bool {
    forall|i: int| 0 <= i < ops.len() ==> !(#[trigger] ops[i] matches CacheOp::Write(d2, s2, _) && d2 == d && s2 == s)
}

/// Operations keep a coherent cache coherent and leave the view of every
/// sector none of them writes, while the cache has room for them.
proof fn lemma_ops_keep_view(st: Store, ops: Seq<CacheOp>, d: usize, s: u64)
    requires
        coherent(st),
        st.0.len() + ops.len() < CACHE_SIZE,
        writes_not(ops, d, s),
    ensures
        coherent(apply_ops(st, ops)),
        apply_ops(st, ops).0.len() <= st.0.len() + ops.len(),
        view_of(apply_ops(st, ops), d, s) == view_of(st, d, s),
    decreases ops.len(),
{
    if ops.len() > 0 {
        let st1 = match ops[0] {
            CacheOp::Read(d2, s2) => match st_read(st, d2, s2) {
                Some((_, st1)) => st1,
                None => st,
            },
            CacheOp::Write(d2, s2, b) => st_write(st, d2, s2, b),
        };
        match ops[0] {
            CacheOp::Read(d2, s2) => {
                lemma_read_view(st, d2, s2);
            },
            CacheOp::Write(d2, s2, b) => {
                assert(!(d2 == d && s2 == s));
                lemma_write_view(st, d2, s2, b);
            },
        }
        assert(view_of(st1, d, s) == view_of(st, d, s));
        assert forall|i: int| 0 <= i < ops.drop_first().len() implies !(#[trigger] ops.drop_first()[i] matches CacheOp::Write(d2, s2, _) && d2 == d && s2 == s) by {
            assert(ops.drop_first()[i] == ops[i + 1]);
        }
        lemma_ops_keep_view(st1, ops.drop_first(), d, s);
    }
}

/// A sector written through the cache reads back as the bytes written,
/// whatever reads and writes of other sectors come in between, as long as
/// the cache has room for them all (no eviction) and its index names the
/// entry of each sector it holds.
pub proof fn lemma_read_after_write_between(st: Store, d: usize, s: u64, bytes: Seq<u8>, ops: Seq<CacheOp>)
    requires
        coherent(st),
        st.0.len() + ops.len() + 1 < CACHE_SIZE,
        writes_not(ops, d, s),
    ensures
        st_read(apply_ops(st_write(st, d, s, bytes), ops), d, s) matches Some((b, _)) && b == bytes,
{
    lemma_write_view(st, d, s, bytes);
    let st1 = st_write(st, d, s, bytes);
    lemma_ops_keep_view(st1, ops, d, s);
    lemma_read_view(apply_ops(st1, ops), d, s);
}

/// `st1` comes from `st` by reads alone: a coherent cache over the same
/// devices, no smaller, with every sector's view as it was.
pub open spec fn kept(st: Store, st1: Store) -> bool {
    &&& coherent(st1)
    &&& st1.2 == st.2
    &&& st.0.len() <= st1.0.len()
            && (crate::fs::store::in_range(st) ==> crate::fs::store::in_range(st1))
    &&& forall|d: usize, s: u64| #[trigger] view_of(st1, d, s) == view_of(st, d, s)
}

/// Reads alone, one after another, are reads alone.
pub proof fn lemma_kept_trans(a: Store, b: Store, c: Store)
    requires
        kept(a, b),
        kept(b, c),
    ensures
        kept(a, c),
{
    assert forall|d: usize, s: u64| #[trigger] view_of(c, d, s) == view_of(a, d, s) by {
        assert(view_of(c, d, s) == view_of(b, d, s));
    }
}

/// A coherent store is kept by doing nothing.
pub proof fn lemma_kept_refl(st: Store)
    requires
        coherent(st),
    ensures
        kept(st, st),
{
}

/// Adding an entry never shrinks the cache.
proof fn lemma_insert_len(st: Store, d: usize, s: u64, bytes: Seq<u8>, dirty: bool)
    ensures
        st_insert(st, d, s, bytes, dirty).0.len() >= st.0.len(),
{
}

/// A read that leaves the cache below its capacity evicted nothing: it gives
/// the sector's view and keeps every view.
pub proof fn lemma_read_kept(st: Store, d: usize, s: u64)
    requires
        coherent(st),
        st_read(st, d, s) matches Some((_, st1)) && st1.0.len() < CACHE_SIZE,
    ensures
        st_read(st, d, s) matches Some((b, st1)) && Some(b) == view_of(st, d, s) && kept(st, st1),
{
    if !st.1.contains_key((d, s)) {
        let bytes = registry_read(st.2, d, s, 1)->0;
        lemma_insert_len(st, d, s, bytes, false);
    }
    lemma_read_view(st, d, s);
}

/// A write that leaves the cache below its capacity evicted nothing: that
/// sector's view becomes the bytes and every other view stays.
pub proof fn lemma_write_kept(st: Store, d: usize, s: u64, bytes: Seq<u8>)
    requires
        coherent(st),
        st_write(st, d, s, bytes).0.len() < CACHE_SIZE,
    ensures
        ({
            let st1 = st_write(st, d, s, bytes);
            &&& coherent(st1)
            &&& st1.2 == st.2
            &&& st.0.len() <= st1.0.len()
            && (crate::fs::store::in_range(st) ==> crate::fs::store::in_range(st1))
            &&& view_of(st1, d, s) == Some(bytes)
            &&& forall|d2: usize, s2: u64| (d2, s2) != (d, s) ==> #[trigger] view_of(st1, d2, s2) == view_of(st, d2, s2)
        }),
{
    if !st.1.contains_key((d, s)) {
        lemma_insert_len(st, d, s, bytes, true);
    }
    lemma_write_view(st, d, s, bytes);
}

/// A read never shrinks the cache; one that leaves it below capacity
/// evicted nothing, gives the sector's view and keeps every view.
pub proof fn lemma_read_step(st: Store, d: usize, s: u64)
    requires
        st_read(st, d, s) is Some,
    ensures
        st_read(st, d, s) matches Some((b, st1)) && st.0.len() <= st1.0.len()
            && (crate::fs::store::in_range(st) ==> crate::fs::store::in_range(st1))
            && (coherent(st) && st1.0.len() < CACHE_SIZE ==> Some(b) == view_of(st, d, s) && kept(st, st1)),
{
    if !st.1.contains_key((d, s)) {
        let bytes = registry_read(st.2, d, s, 1)->0;
        lemma_insert_len(st, d, s, bytes, false);
    }
    let (b, st1) = st_read(st, d, s)->0;
    if coherent(st) && st1.0.len() < CACHE_SIZE {
        lemma_read_view(st, d, s);
    }
    if in_range(st) {
        lemma_read_in_range(st, d, s);
    }
}

/// Every index entry points inside the cache's entries.
pub open spec fn in_range(st: Store) -> bool {
    forall|k: (usize, u64)| #[trigger] st.1.contains_key(k) ==> st.1[k] < st.0.len()
}

/// Adding an entry keeps the index inside the entries (an eviction shifts
/// the entries down, and the new one takes the freed place at the end).
proof fn lemma_insert_in_range(st: Store, d: usize, s: u64, bytes: Seq<u8>, dirty: bool)
    requires
        in_range(st),
    ensures
        in_range(st_insert(st, d, s, bytes, dirty)),
{
    let st1 = st_insert(st, d, s, bytes, dirty);
    assert forall|k: (usize, u64)| #[trigger] st1.1.contains_key(k) implies st1.1[k] < st1.0.len() by {
        if k != (d, s) {
            if st.0.len() >= CACHE_SIZE {
                assert(st.1.contains_key(k));
            } else {
                assert(st.1.contains_key(k));
            }
        }
    }
}

/// A read keeps the index inside the entries.
pub proof fn lemma_read_in_range(st: Store, d: usize, s: u64)
    requires
        in_range(st),
        st_read(st, d, s) is Some,
    ensures
        st_read(st, d, s) matches Some((_, st1)) && in_range(st1),
{
    if !st.1.contains_key((d, s)) {
        let bytes = registry_read(st.2, d, s, 1)->0;
        lemma_insert_in_range(st, d, s, bytes, false);
    }
}

/// A write never shrinks the cache and keeps the index inside the entries.
pub proof fn lemma_write_grows(st: Store, d: usize, s: u64, bytes: Seq<u8>)
    requires
        in_range(st),
    ensures
        st.0.len() <= st_write(st, d, s, bytes).0.len(),
        in_range(st_write(st, d, s, bytes)),
{
    if !st.1.contains_key((d, s)) {
        lemma_insert_len(st, d, s, bytes, true);
        lemma_insert_in_range(st, d, s, bytes, true);
    }
}

/// The sector cache together with the devices behind it.
pub struct Storage {
    pub cache: BlockCache,
    pub reg: BlockRegistry,
}

impl Storage {
    pub open spec fn store(&self) -> Store {
        store_of(self.cache.view(), self.reg.view())
    }

    pub open spec fn wf(&self) -> bool {
        self.cache.wf()
    }

    /// Reads a sector through the cache (see `st_read`); an error, with
    /// nothing changed, when the device cannot give it.
    pub fn read(&mut self, d: usize, s: u64) -> (r: Result<[u8; 512], ()>)
        requires
            old(self).wf(),
            st_fits(old(self).store(), d, s),
        ensures
            final(self).wf(),
            match st_read(old(self).store(), d, s) {
                Some((b, st1)) => r matches Ok(buf) && buf@ == b && final(self).store() == st1,
                None => r is Err && final(self).store() == old(self).store(),
            },
    {
        let mut b = [0u8; 512];
        let r = read_block(&mut self.cache, &mut self.reg, d, s, &mut b);
        proof {
            let res = if r is Ok { Some(b@) } else { None::<Seq<u8>> };
            lemma_read_matches(old(self).cache.view(), old(self).reg.view(), d, s, res, self.cache.view(), self.reg.view());
        }
        match r {
            Ok(()) => Ok(b),
            Err(e) => Err(e),
        }
    }

    /// Writes a sector through the cache.
    pub fn write(&mut self, d: usize, s: u64, b: &[u8; 512])
        requires
            old(self).wf(),
        ensures
            final(self).wf(),
            final(self).store() == st_write(old(self).store(), d, s, b@),
    {
        let _ = write_block(&mut self.cache, &mut self.reg, d, s, b);
        proof {
            lemma_write_matches(old(self).cache.view(), old(self).reg.view(), d, s, b@, self.cache.view(), self.reg.view());
        }
    }
}

} // verus!
