use vstd::prelude::*;
use crate::drivers::block::{
    BlockRegistry, DiskView, lemma_registry_read_after_write, registry_read, registry_write, write_sectors,
};

verus! {

/// A sector write recorded in the journal.
#[derive(Clone, Copy)]
pub struct JournalEntry {
    pub device: usize,
    pub sector: u64,
    pub data: [u8; 512],
}

/// The writes of the open transaction, in order.
pub struct Journal {
    pub entries: Vec<JournalEntry>,
}

impl Journal {
    pub fn new() -> (j: Self)
        ensures
            j.entries@.len() == 0,
    {
        Journal { entries: Vec::new() }
    }
}

/// Starts a transaction: forgets what was logged.
pub fn begin_transaction(journal: &mut Journal)
    ensures
        final(journal).entries@.len() == 0,
{
    journal.entries.clear();
}

/// Logs a sector write.
pub fn log_write(journal: &mut Journal, device: usize, sector: u64, data: &[u8; 512])
    ensures
        final(journal).entries@ == old(journal).entries@.push(JournalEntry { device, sector, data: *data }),
{
    journal.entries.push(JournalEntry { device, sector, data: *data });
}

/// The devices after replaying the journal's writes from position `n` on.
pub open spec fn replayed(r: Seq<DiskView>, entries: Seq<JournalEntry>, n: int) -> Seq<DiskView>
    decreases entries.len() - n,
{
    if n < 0 || n >= entries.len() {
        r
    } else {
        let e = entries[n];
        replayed(registry_write(r, e.device, e.sector, e.data@, 1), entries, n + 1)
    }
}

/// Commits: performs the logged writes in order (errors are ignored). The
/// journal keeps its entries.
pub fn commit_transaction(journal: &Journal, reg: &mut BlockRegistry)
    ensures
        final(reg).view() == replayed(old(reg).view(), journal.entries@, 0),
{
    let mut i: usize = 0;
    while i < journal.entries.len()
        invariant
            i <= journal.entries@.len(),
            replayed(reg.view(), journal.entries@, i as int) == replayed(old(reg).view(), journal.entries@, 0),
        decreases journal.entries@.len() - i,
    {
        let e = journal.entries[i];
        let _ = write_sectors(reg, e.device, e.sector, 1, &e.data);
        i += 1;
    }
}

/// Abandons the transaction: forgets what was logged.
pub fn rollback_transaction(journal: &mut Journal)
    ensures
        final(journal).entries@.len() == 0,
{
    journal.entries.clear();
}

/// Replaying from `n` on, where the last entry writes sector `s` of the RAM
/// disk `d`, leaves that sector holding the last entry's bytes.
proof fn lemma_replay_last(r: Seq<DiskView>, es: Seq<JournalEntry>, n: int, d: usize, s: u64)
    requires
        0 <= n < es.len(),
        d < r.len(),
        r[d as int].0,
        es.last().device == d && es.last().sector == s,
    ensures
        registry_read(replayed(r, es, n), d, s, 1) == Some(es.last().data@),
    decreases es.len() - n,
{
    let e = es[n];
    let r2 = registry_write(r, e.device, e.sector, e.data@, 1);
    if n < es.len() - 1 {
        lemma_replay_last(r2, es, n + 1, d, s);
    } else {
        assert(replayed(r2, es, n + 1) == r2);
        lemma_registry_read_after_write(r, d, s, e.data@, 1);
        assert(e.data@.subrange(0, 512) =~= e.data@);
    }
}

/// A write logged last in a transaction is on the disk once the
/// transaction commits: the sector of a RAM disk reads back the bytes
/// logged.
pub proof fn lemma_commit_after_log(r: Seq<DiskView>, logged: Seq<JournalEntry>, e: JournalEntry)
    requires
        e.device < r.len(),
        r[e.device as int].0,
    ensures
        registry_read(replayed(r, logged.push(e), 0), e.device, e.sector, 1) == Some(e.data@),
{
    lemma_replay_last(r, logged.push(e), 0, e.device, e.sector);
}

/// A rolled-back transaction writes nothing: committing the journal that
/// rollback leaves changes no device.
pub proof fn lemma_rollback_then_commit(r: Seq<DiskView>, entries: Seq<JournalEntry>)
    requires
        entries.len() == 0,
    ensures
        replayed(r, entries, 0) == r,
{
}

/// Replaying `a + b` is replaying `a`, then `b`, from position `n` of `a`.
proof fn lemma_replay_split(r: Seq<DiskView>, a: Seq<JournalEntry>, b: Seq<JournalEntry>, n: int)
    requires
        0 <= n <= a.len(),
    ensures
        replayed(r, a + b, n) == replayed(replayed(r, a, n), b, 0),
    decreases a.len() - n,
{
    if n < a.len() {
        let e = a[n];
        assert((a + b)[n] == e);
        lemma_replay_split(registry_write(r, e.device, e.sector, e.data@, 1), a, b, n + 1);
    } else {
        lemma_replay_from(r, a, b, 0);
    }
}

/// Replaying `a + b` from position `a.len() + k` is replaying `b` from `k`.
proof fn lemma_replay_from(r: Seq<DiskView>, a: Seq<JournalEntry>, b: Seq<JournalEntry>, k: int)
    requires
        0 <= k <= b.len(),
    ensures
        replayed(r, a + b, a.len() + k) == replayed(r, b, k),
    decreases b.len() - k,
{
    if k < b.len() {
        let e = b[k];
        assert((a + b)[a.len() + k] == e);
        lemma_replay_from(registry_write(r, e.device, e.sector, e.data@, 1), a, b, k + 1);
    }
}

/// A commit performs the logged writes in the order they were logged: the
/// writes of a journal with one more entry are those of the journal, then
/// that entry's write. A second commit of the same journal performs the
/// same writes again, from the devices the first left.
pub proof fn lemma_commit_in_order(r: Seq<DiskView>, logged: Seq<JournalEntry>, e: JournalEntry)
    ensures
        replayed(r, logged.push(e), 0) == registry_write(replayed(r, logged, 0), e.device, e.sector, e.data@, 1),
{
    assert(logged.push(e) =~= logged + seq![e]);
    lemma_replay_split(r, logged, seq![e], 0);
    let m = replayed(r, logged, 0);
    assert(replayed(registry_write(m, e.device, e.sector, e.data@, 1), seq![e], 1) == registry_write(m, e.device, e.sector, e.data@, 1));
}

} // verus!
