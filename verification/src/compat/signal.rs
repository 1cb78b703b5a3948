use std::collections::BTreeMap;
use vstd::prelude::*;
use crate::compat::process::{ProcessTable, current_pid, get_current_pid};

verus! {

broadcast use vstd::std_specs::btree::group_btree_axioms;

/// A handler as `rt_sigaction` passes it: address, flags, blocked mask.
#[derive(Clone, Copy)]
pub struct SignalHandler {
    pub handler: usize,
    pub flags: i32,
    pub mask: u64,
}

/// Handlers by `(pid << 8) | signum`, and blocked masks by pid.
pub struct SignalState {
    pub handlers: BTreeMap<u32, SignalHandler>,
    pub masks: BTreeMap<u32, u64>,
}

pub const SIG_BLOCK: i32 = 0;
pub const SIG_UNBLOCK: i32 = 1;
pub const SIG_SETMASK: i32 = 2;

impl SignalState {
    pub fn new() -> (s: Self)
        ensures
            s.handlers@ == Map::<u32, SignalHandler>::empty(),
            s.masks@ == Map::<u32, u64>::empty(),
    {
        SignalState { handlers: BTreeMap::new(), masks: BTreeMap::new() }
    }
}

/// The key a process's handler for a signal is filed under (32-bit
/// arithmetic: the shift drops the pid's top byte).
pub open spec fn handler_key(pid: u32, signum: i32) -> u32 {
    (pid << 8u32) | (signum as u32)
}

fn key_of(pid: u32, signum: i32) -> (k: u32)
    ensures
        k == handler_key(pid, signum),
{
    (pid << 8u32) | (signum as u32)
}

/// `rt_sigaction` for the running process. The second part is the handler
/// filed before the call (the caller copies it out when it passed `oldact`);
/// `act`, the handler the caller read from `act`, replaces it. Answers 0.
pub fn set_signal_handler(
    state: &mut SignalState,
    procs: &ProcessTable,
    signum: i32,
    act: Option<SignalHandler>,
) -> (r: (isize, Option<SignalHandler>))
    ensures
        ({
            let key = handler_key(current_pid(procs.processes@), signum);
            &&& r.0 == 0
            &&& r.1 == (if old(state).handlers@.contains_key(key) {
                Some(old(state).handlers@[key])
            } else {
                None
            })
            &&& final(state).masks@ == old(state).masks@
            &&& final(state).handlers@ == match act {
                Some(h) => old(state).handlers@.insert(key, h),
                None => old(state).handlers@,
            }
        }),
{
    let pid = get_current_pid(procs);
    let key = key_of(pid, signum);
    let previous = match state.handlers.get(&key) {
        Some(h) => Some(*h),
        None => None,
    };
    if let Some(h) = act {
        state.handlers.insert(key, h);
    }
    (0, previous)
}

/// The mask `rt_sigprocmask` leaves: `how` 0 (`SIG_BLOCK`) adds the bits of
/// `set`, 1 (`SIG_UNBLOCK`) clears them, 2 replaces the mask; any other
/// `how` keeps it.
pub open spec fn updated_mask(current: u64, how: i32, set: u64) -> u64 {
    if how == SIG_BLOCK {
        current | set
    } else if how == SIG_UNBLOCK {
        current & !set
    } else if how == SIG_SETMASK {
        set
    } else {
        current
    }
}

/// `rt_sigprocmask` for the running process. The second part is the mask
/// before the call (0 when none is filed); the caller copies it out when it
/// passed `oldset`. `set` is the mask the caller read from `set`, if it
/// passed one; then the new mask is filed. Answers 0.
pub fn modify_signal_mask(state: &mut SignalState, procs: &ProcessTable, how: i32, set: Option<u64>) -> (r: (isize, u64))
    ensures
        ({
            let pid = current_pid(procs.processes@);
            let cur = mask_of(old(state).masks@, pid);
            &&& r.0 == 0
            &&& r.1 == cur
            &&& final(state).handlers@ == old(state).handlers@
            &&& final(state).masks@ == match set {
                Some(s) => old(state).masks@.insert(pid, updated_mask(cur, how, s)),
                None => old(state).masks@,
            }
        }),
{
    let pid = get_current_pid(procs);
    let current_mask = match state.masks.get(&pid) {
        Some(m) => *m,
        None => 0,
    };
    if let Some(new_mask) = set {
        let updated = if how == SIG_BLOCK {
            current_mask | new_mask
        } else if how == SIG_UNBLOCK {
            current_mask & !new_mask
        } else if how == SIG_SETMASK {
            new_mask
        } else {
            current_mask
        };
        state.masks.insert(pid, updated);
    }
    (0, current_mask)
}

/// The handler address a signal reaches: the one filed for `(pid, signum)`
/// unless it is 0 (default) or 1 (ignore).
pub open spec fn delivered(handlers: Map<u32, SignalHandler>, pid: u32, signum: i32) -> Option<usize> {
    let key = handler_key(pid, signum);
    if handlers.contains_key(key) && handlers[key].handler != 0 && handlers[key].handler != 1 {
        Some(handlers[key].handler)
    } else {
        None
    }
}

/// Delivers a signal: the second part is the handler address the caller
/// must invoke with `signum` (see `delivered`). Answers 0.
pub fn send_signal(state: &SignalState, pid: u32, signum: i32) -> (r: (isize, Option<usize>))
    ensures
        r.0 == 0,
        r.1 == delivered(state.handlers@, pid, signum),
{
    let key = key_of(pid, signum);
    match state.handlers.get(&key) {
        Some(h) => {
            if h.handler != 0 && h.handler != 1 {
                (0, Some(h.handler))
            } else {
                (0, None)
            }
        },
        None => (0, None),
    }
}

/// A handler a process installs for a signal is the one that signal, sent
/// to that process, reaches (unless it is the default or ignore value).
pub proof fn lemma_installed_handler_delivered(handlers: Map<u32, SignalHandler>, pid: u32, signum: i32, h: SignalHandler)
    ensures
        delivered(handlers.insert(handler_key(pid, signum), h), pid, signum)
            == (if h.handler != 0 && h.handler != 1 { Some(h.handler) } else { None::<usize> }),
{
}

/// A handler installed with `rt_sigaction` reads back: the next
/// `rt_sigaction` for the same signal of the same process reports it as the
/// handler filed before the call.
pub proof fn lemma_handler_reads_back(handlers: Map<u32, SignalHandler>, pid: u32, signum: i32, h: SignalHandler)
    ensures
        ({
            let key = handler_key(pid, signum);
            let after = handlers.insert(key, h);
            after.contains_key(key) && after[key] == h
        }),
{
}

/// The mask `rt_sigprocmask` reports for a process: the filed one, else 0.
pub open spec fn mask_of(masks: Map<u32, u64>, pid: u32) -> u64 {
    if masks.contains_key(pid) { masks[pid] } else { 0 }
}

/// After a process replaces its mask with `set`, the mask it next reads is
/// `set`; replacing it again with the mask read back changes nothing.
pub proof fn lemma_setmask_read_back(masks: Map<u32, u64>, pid: u32, set: u64)
    ensures
        ({
            let after = masks.insert(pid, updated_mask(mask_of(masks, pid), SIG_SETMASK, set));
            &&& mask_of(after, pid) == set
            &&& after.insert(pid, updated_mask(mask_of(after, pid), SIG_SETMASK, mask_of(after, pid))) == after
        }),
{
    let after = masks.insert(pid, updated_mask(mask_of(masks, pid), SIG_SETMASK, set));
    assert(after.insert(pid, set) =~= after);
}

} // verus!
