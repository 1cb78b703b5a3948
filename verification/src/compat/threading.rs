use std::collections::BTreeMap;
use vstd::prelude::*;
use crate::compat::process::{ProcessTable, current_pid, get_current_pid};
use crate::util::spin_wait;

verus! {

broadcast use vstd::std_specs::btree::group_btree_axioms;

#[derive(PartialEq, Eq, Structural, Clone, Copy)]
pub enum ThreadState {
    Running,
    Blocked,
    Dead,
}

#[derive(Clone, Copy)]
pub struct Thread {
    pub tid: u32,
    pub pid: u32,
    pub state: ThreadState,
    pub tid_address: usize,
}

/// All threads, oldest first; the newest one is the one that runs.
pub struct ThreadTable {
    pub threads: Vec<Thread>,
    pub next_tid: u32,
}

/// The waiters on each futex word, by address, in arrival order.
pub struct FutexTable {
    pub waiters: BTreeMap<usize, Vec<u32>>,
}

pub const FUTEX_WAIT: i32 = 0;
pub const FUTEX_WAKE: i32 = 1;
pub const FUTEX_PRIVATE_FLAG: i32 = 128;
pub const ENOSYS: isize = -38;
pub const EAGAIN: isize = -11;

impl ThreadTable {
    pub fn new() -> (t: Self)
        ensures
            t.threads@.len() == 0,
            t.next_tid == 1,
            t.wf(),
    {
        ThreadTable { threads: Vec::new(), next_tid: 1 }
    }

    /// No two threads share a tid.
    pub open spec fn wf(&self) -> bool {
        forall|i: int, j: int|
            0 <= i < self.threads@.len() && 0 <= j < self.threads@.len() && i != j
                ==> #[trigger] self.threads@[i].tid != #[trigger] self.threads@[j].tid
    }
}

impl FutexTable {
    pub fn new() -> (t: Self)
        ensures
            t.waiters@ == Map::<usize, Vec<u32>>::empty(),
    {
        FutexTable { waiters: BTreeMap::new() }
    }
}

/// The tid of the running thread: the newest one, or 1 with none.
pub open spec fn current_tid(s: Seq<Thread>) -> u32 {
    if s.len() == 0 { 1 } else { s.last().tid }
}

/// The tid of the running thread.
pub fn get_thread_id(table: &ThreadTable) -> (tid: u32)
    ensures
        tid == current_tid(table.threads@),
{
    let n = table.threads.len();
    if n == 0 {
        1
    } else {
        table.threads[n - 1].tid
    }
}

/// Gives up the processor for a while: a busy wait of a thousand rounds.
pub fn yield_cpu() {
    spin_wait(1000);
}

/// The operation a futex call names, once the private flag is masked off.
pub open spec fn futex_op(op: i32) -> i32 {
    op & !FUTEX_PRIVATE_FLAG
}

/// The waiters on `uaddr`, none when it has no entry.
pub open spec fn waiters_of(m: Map<usize, Vec<u32>>, uaddr: usize) -> Seq<u32> {
    if m.contains_key(uaddr) { m[uaddr]@ } else { Seq::empty() }
}

/// How many waiters a wake with count `val` releases out of `n`.
pub open spec fn woken_count(n: int, val: i32) -> int {
    if n < (val as usize) { n } else { (val as usize) as int }
}

/// `futex`. `current` is the value of the word at `uaddr`, which the caller
/// reads for a wait. A wait answers `EAGAIN` when the word differs from
/// `val`; otherwise it queues the running thread's tid on `uaddr`, spins,
/// and answers 0. A wake releases the first `min(queued, val as usize)`
/// waiters on `uaddr` and answers their number (0 when `uaddr` has no
/// entry). Any other operation answers `ENOSYS`.
pub fn futex_wait_wake(
    futexes: &mut FutexTable,
    threads: &ThreadTable,
    uaddr: usize,
    op: i32,
    val: i32,
    current: i32,
) -> (r: isize)
    ensures
        futex_op(op) == FUTEX_WAIT ==> if current != val {
            r == EAGAIN && final(futexes).waiters@ == old(futexes).waiters@
        } else {
            &&& r == 0
            &&& final(futexes).waiters@.dom() == old(futexes).waiters@.dom().insert(uaddr)
            &&& forall|a: usize| a != uaddr && #[trigger] old(futexes).waiters@.contains_key(a)
                ==> final(futexes).waiters@[a] == old(futexes).waiters@[a]
            &&& final(futexes).waiters@[uaddr]@ == waiters_of(old(futexes).waiters@, uaddr).push(
                current_tid(threads.threads@),
            )
        },
        futex_op(op) == FUTEX_WAKE ==> if old(futexes).waiters@.contains_key(uaddr) {
            let q = old(futexes).waiters@[uaddr]@;
            let k = woken_count(q.len() as int, val);
            &&& r == k as isize
            &&& final(futexes).waiters@.dom() == old(futexes).waiters@.dom()
            &&& forall|a: usize| a != uaddr && #[trigger] old(futexes).waiters@.contains_key(a)
                ==> final(futexes).waiters@[a] == old(futexes).waiters@[a]
            &&& final(futexes).waiters@[uaddr]@ == q.subrange(k, q.len() as int)
        } else {
            r == 0 && final(futexes).waiters@ == old(futexes).waiters@
        },
        futex_op(op) != FUTEX_WAIT && futex_op(op) != FUTEX_WAKE ==> r == ENOSYS
            && final(futexes).waiters@ == old(futexes).waiters@,
{
    let op_masked = op & !FUTEX_PRIVATE_FLAG;
    if op_masked == FUTEX_WAIT {
        if current != val {
            return EAGAIN;
        }
        let tid = get_thread_id(threads);
        let mut queue = match futexes.waiters.remove(&uaddr) {
            Some(q) => q,
            None => Vec::new(),
        };
        queue.push(tid);
        futexes.waiters.insert(uaddr, queue);
        proof {
            assert(futexes.waiters@.dom() =~= old(futexes).waiters@.dom().insert(uaddr));
        }
        spin_wait(10000);
        0
    } else if op_masked == FUTEX_WAKE {
        match futexes.waiters.remove(&uaddr) {
            Some(mut queue) => {
                let n = queue.len();
                let woken = if n < val as usize { n } else { val as usize };
                let rest = queue.split_off(woken);
                futexes.waiters.insert(uaddr, rest);
                proof {
                    assert(futexes.waiters@.dom() =~= old(futexes).waiters@.dom());
                }
                woken as isize
            },
            None => 0,
        }
    } else {
        ENOSYS
    }
}

/// A thread that waits on an address is released by the next wake on it
/// whose count covers the queue: all waiters, the new one last, are
/// released, and the queue is left empty.
pub proof fn lemma_wait_then_wake(queued: Seq<u32>, tid: u32, val: i32)
    requires
        queued.len() + 1 <= val as usize,
    ensures
        ({
            let q = queued.push(tid);
            let k = woken_count(q.len() as int, val);
            &&& k == q.len()
            &&& q[k - 1] == tid
            &&& q.subrange(k, q.len() as int) == Seq::<u32>::empty()
        }),
{
    let q = queued.push(tid);
    assert(q.subrange(q.len() as int, q.len() as int) =~= Seq::<u32>::empty());
}

pub open spec fn first_with_tid(s: Seq<Thread>, tid: u32, i: int) -> bool {
    &&& 0 <= i < s.len()
    &&& s[i].tid == tid
    &&& forall|j: int| 0 <= j < i ==> s[j].tid != tid
}

pub open spec fn has_tid(s: Seq<Thread>, tid: u32) -> bool {
    exists|i: int| 0 <= i < s.len() && s[i].tid == tid
}

pub open spec fn tid_slot(s: Seq<Thread>, tid: u32) -> int {
    choose|i: int| first_with_tid(s, tid, i)
}

fn find_thread(threads: &Vec<Thread>, tid: u32) -> (r: Option<usize>)
    ensures
        r matches Some(i) ==> first_with_tid(threads@, tid, i as int) && tid_slot(threads@, tid) == i,
        r is None <==> !has_tid(threads@, tid),
{
    let mut i: usize = 0;
    while i < threads.len()
        invariant
            i <= threads@.len(),
            forall|j: int| 0 <= j < i ==> threads@[j].tid != tid,
        decreases threads@.len() - i,
    {
        if threads[i].tid == tid {
            proof {
                let k = tid_slot(threads@, tid);
                assert(first_with_tid(threads@, tid, i as int));
                assert(first_with_tid(threads@, tid, k));
                if k < i {
                    assert(threads@[k].tid != tid);
                } else if k > i {
                    assert(threads@[i as int].tid != tid);
                }
            }
            return Some(i);
        }
        i += 1;
    }
    None
}

/// `set_tid_address`: records `tidptr` for the running thread, adding an
/// entry for it (running, owned by the running process) when it has none.
/// Answers the running thread's tid.
pub fn set_tid_address(table: &mut ThreadTable, procs: &ProcessTable, tidptr: usize) -> (r: isize)
    requires
        old(table).wf(),
    ensures
        final(table).wf(),
        ({
            let tid = current_tid(old(table).threads@);
            let f = final(table).threads@;
            &&& exists|i: int| 0 <= i < f.len() && f[i].tid == tid
            &&& forall|i: int| 0 <= i < f.len() && #[trigger] f[i].tid == tid ==> f[i].tid_address == tidptr
        }),
        ({
            let s = old(table).threads@;
            let tid = current_tid(s);
            &&& r == tid as isize
            &&& final(table).next_tid == old(table).next_tid
            &&& if has_tid(s, tid) {
                let i = tid_slot(s, tid);
                final(table).threads@ == s.update(i, Thread { tid_address: tidptr, ..s[i] })
            } else {
                final(table).threads@ == s.push(
                    Thread {
                        tid,
                        pid: current_pid(procs.processes@),
                        state: ThreadState::Running,
                        tid_address: tidptr,
                    },
                )
            }
        }),
{
    let tid = get_thread_id(table);
    match find_thread(&table.threads, tid) {
        Some(i) => {
            let mut t = table.threads[i];
            t.tid_address = tidptr;
            table.threads.set(i, t);
            proof {
                let s = old(table).threads@;
                let f = table.threads@;
                assert(f[i as int].tid == tid);
                assert forall|a: int, b: int| 0 <= a < f.len() && 0 <= b < f.len() && a != b implies #[trigger] f[a].tid != #[trigger] f[b].tid by {
                    assert(s[a].tid != s[b].tid);
                }
                assert forall|a: int| 0 <= a < f.len() && #[trigger] f[a].tid == tid implies f[a].tid_address == tidptr by {
                    if a != i {
                        assert(s[a].tid != s[i as int].tid);
                    }
                }
            }
        },
        None => {
            let pid = get_current_pid(procs);
            table.threads.push(Thread { tid, pid, state: ThreadState::Running, tid_address: tidptr });
            proof {
                let s = old(table).threads@;
                let f = table.threads@;
                let n = s.len() as int;
                assert(f[n].tid == tid);
                assert forall|a: int| 0 <= a < s.len() implies #[trigger] s[a].tid != tid by {
                    if s[a].tid == tid {
                        assert(has_tid(s, tid));
                    }
                }
                assert forall|a: int, b: int| 0 <= a < f.len() && 0 <= b < f.len() && a != b implies #[trigger] f[a].tid != #[trigger] f[b].tid by {
                    if a < n && b < n {
                        assert(s[a].tid != s[b].tid);
                    } else if a < n {
                        assert(s[a].tid != tid);
                    } else {
                        assert(s[b].tid != tid);
                    }
                }
                assert forall|a: int| 0 <= a < f.len() && #[trigger] f[a].tid == tid implies f[a].tid_address == tidptr by {
                    if a < n {
                        assert(s[a].tid != tid);
                    }
                }
            }
        },
    }
    tid as isize
}

} // verus!
