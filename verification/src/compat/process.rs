use vstd::prelude::*;
use crate::util::{c_str_len, c_str_len_spec, lemma_c_str_len_bounds};

verus! {

#[derive(PartialEq, Eq, Structural, Clone, Copy)]
pub enum ProcessState {
    Running,
    Sleeping,
    Zombie,
}

#[derive(Clone, Copy)]
pub struct Process {
    pub pid: u32,
    pub ppid: u32,
    pub uid: u32,
    pub gid: u32,
    pub state: ProcessState,
    pub exit_code: i32,
    pub cwd: [u8; 256],
    pub cwd_len: usize,
}

/// All processes, oldest first; the newest one is the one that runs.
pub struct ProcessTable {
    pub processes: Vec<Process>,
    pub next_pid: u32,
}

/// `CLONE_PARENT_SETTID`: write the new pid where `ptid` points.
pub const CLONE_PARENT_SETTID: u32 = 0x00010000;
/// `CLONE_CHILD_SETTID`: write the new pid where `ctid` points.
pub const CLONE_CHILD_SETTID: u32 = 0x00200000;
/// The flags `fork` clones with.
pub const FORK_FLAGS: u32 = 0x01200011;
/// `WNOHANG`.
pub const WNOHANG: i32 = 1;
pub const ECHILD: isize = -10;
pub const EFAULT: isize = -14;

impl ProcessTable {
    pub fn new() -> (t: Self)
        ensures
            t.processes@.len() == 0,
            t.next_pid == 1,
            t.wf(),
    {
        ProcessTable { processes: Vec::new(), next_pid: 1 }
    }

    /// Every working directory fits its buffer, and the pids are issued
    /// ones: distinct, at least 1 and below `next_pid`.
    pub open spec fn wf(&self) -> bool {
        &&& forall|i: int| 0 <= i < self.processes@.len() ==> #[trigger] self.processes@[i].cwd_len <= 256
        &&& pids_issued(self.processes@, self.next_pid)
    }
}

/// The pids in `s` are distinct, at least 1 and below `next`.
pub open spec fn pids_issued(s: Seq<Process>, next: u32) -> bool {
    &&& next >= 1
    &&& forall|i: int| 0 <= i < s.len() ==> 1 <= #[trigger] s[i].pid < next
    &&& forall|i: int, j: int| 0 <= i < s.len() && 0 <= j < s.len() && i != j ==> #[trigger] s[i].pid != #[trigger] s[j].pid
}

/// Replacing an entry by one with the same pid keeps the pids issued.
proof fn lemma_pids_update(s: Seq<Process>, next: u32, i: int, p: Process)
    requires
        pids_issued(s, next),
        0 <= i < s.len(),
        p.pid == s[i].pid,
    ensures
        pids_issued(s.update(i, p), next),
{
    let t = s.update(i, p);
    assert forall|a: int, b: int| 0 <= a < t.len() && 0 <= b < t.len() && a != b implies #[trigger] t[a].pid != #[trigger] t[b].pid by {
        assert(s[a].pid != s[b].pid);
    }
    assert forall|a: int| 0 <= a < t.len() implies 1 <= #[trigger] t[a].pid < next by {
        assert(1 <= s[a].pid < next);
    }
}

/// Removing an entry keeps the pids issued.
proof fn lemma_pids_remove(s: Seq<Process>, next: u32, i: int)
    requires
        pids_issued(s, next),
        0 <= i < s.len(),
    ensures
        pids_issued(s.remove(i), next),
{
    let t = s.remove(i);
    assert forall|a: int, b: int| 0 <= a < t.len() && 0 <= b < t.len() && a != b implies #[trigger] t[a].pid != #[trigger] t[b].pid by {
        let a2 = if a < i { a } else { a + 1 };
        let b2 = if b < i { b } else { b + 1 };
        assert(t[a] == s[a2] && t[b] == s[b2]);
        assert(s[a2].pid != s[b2].pid);
    }
    assert forall|a: int| 0 <= a < t.len() implies 1 <= #[trigger] t[a].pid < next by {
        let a2 = if a < i { a } else { a + 1 };
        assert(t[a] == s[a2]);
        assert(1 <= s[a2].pid < next);
    }
}

/// Appending a process with the next pid, and moving the counter past it,
/// keeps the pids issued.
proof fn lemma_pids_push(s: Seq<Process>, next: u32, p: Process)
    requires
        pids_issued(s, next),
        p.pid == next,
        next < u32::MAX,
    ensures
        pids_issued(s.push(p), (next + 1) as u32),
        !has_pid(s, next),
{
    let t = s.push(p);
    assert forall|a: int, b: int| 0 <= a < t.len() && 0 <= b < t.len() && a != b implies #[trigger] t[a].pid != #[trigger] t[b].pid by {
        if a < s.len() && b < s.len() {
            assert(s[a].pid != s[b].pid);
        } else if a < s.len() {
            assert(s[a].pid < next);
        } else {
            assert(s[b].pid < next);
        }
    }
    assert forall|a: int| 0 <= a < t.len() implies 1 <= #[trigger] t[a].pid < next + 1 by {
        if a < s.len() {
            assert(1 <= s[a].pid < next);
        }
    }
    if has_pid(s, next) {
        let k = choose|k: int| 0 <= k < s.len() && s[k].pid == next;
        assert(s[k].pid < next);
    }
}

/// The pid of the newest process, or 1 when there is none.
pub open spec fn current_pid(s: Seq<Process>) -> u32 {
    if s.len() == 0 { 1 } else { s.last().pid }
}

pub open spec fn first_with_pid(s: Seq<Process>, pid: u32, i: int) -> bool {
    &&& 0 <= i < s.len()
    &&& s[i].pid == pid
    &&& forall|j: int| 0 <= j < i ==> s[j].pid != pid
}

pub open spec fn has_pid(s: Seq<Process>, pid: u32) -> bool {
    exists|i: int| 0 <= i < s.len() && s[i].pid == pid
}

/// The slot of the first process with that pid.
pub open spec fn pid_slot(s: Seq<Process>, pid: u32) -> int {
    choose|i: int| first_with_pid(s, pid, i)
}

pub proof fn lemma_pid_slot(s: Seq<Process>, pid: u32, i: int)
    requires
        first_with_pid(s, pid, i),
    ensures
        pid_slot(s, pid) == i,
{
    let k = pid_slot(s, pid);
    assert(first_with_pid(s, pid, k));
    if k < i {
        assert(s[k].pid != pid);
    } else if k > i {
        assert(s[i].pid != pid);
    }
}

/// The process that `pid` names, if any.
pub open spec fn process_of(s: Seq<Process>, pid: u32) -> Option<Process> {
    if has_pid(s, pid) { Some(s[pid_slot(s, pid)]) } else { None }
}

fn find_process(processes: &Vec<Process>, pid: u32) -> (r: Option<usize>)
    ensures
        r matches Some(i) ==> first_with_pid(processes@, pid, i as int) && pid_slot(processes@, pid) == i,
        r is None <==> !has_pid(processes@, pid),
{
    let mut i: usize = 0;
    while i < processes.len()
        invariant
            i <= processes@.len(),
            forall|j: int| 0 <= j < i ==> processes@[j].pid != pid,
        decreases processes@.len() - i,
    {
        if processes[i].pid == pid {
            proof {
                lemma_pid_slot(processes@, pid, i as int);
            }
            return Some(i);
        }
        i += 1;
    }
    None
}

/// The pid of the running process: the newest one, or 1 with none.
pub fn get_current_pid_internal(table: &ProcessTable) -> (pid: u32)
    ensures
        pid == current_pid(table.processes@),
{
    let n = table.processes.len();
    if n == 0 {
        1
    } else {
        table.processes[n - 1].pid
    }
}

/// The pid of the running process.
pub fn get_current_pid(table: &ProcessTable) -> (pid: u32)
    ensures
        pid == current_pid(table.processes@),
{
    get_current_pid_internal(table)
}

/// What a clone inherits: the parent's pid (as the new parent id), its uid,
/// gid and working directory; with no running process found, parent 1, uid
/// and gid 0, and a working directory of length 1 that holds zeros.
pub open spec fn cloned_process(parent: Option<Process>, pid: u32, p: Process) -> bool {
    &&& p.pid == pid
    &&& p.state == ProcessState::Running
    &&& p.exit_code == 0
    &&& match parent {
        Some(q) => p.ppid == q.pid && p.uid == q.uid && p.gid == q.gid && p.cwd == q.cwd
            && p.cwd_len == q.cwd_len,
        None => p.ppid == 1 && p.uid == 0 && p.gid == 0 && p.cwd@ == Seq::new(256, |i: int| 0u8)
            && p.cwd_len == 1,
    }
}

/// Creates a process that inherits from the running one and answers its
/// pid. Where `flags` holds `CLONE_PARENT_SETTID` or `CLONE_CHILD_SETTID`,
/// the caller stores the pid where `ptid` or `ctid` point (see
/// `clone_sets_parent_tid` and `clone_sets_child_tid`).
pub fn clone_process(table: &mut ProcessTable, flags: u32) -> (r: isize)
    requires
        old(table).next_pid < u32::MAX,
        old(table).wf(),
    ensures
        final(table).wf(),
        r == old(table).next_pid as isize,
        old(table).next_pid >= 1,
        !has_pid(old(table).processes@, old(table).next_pid),
        final(table).next_pid == old(table).next_pid + 1,
        final(table).processes@.len() == old(table).processes@.len() + 1,
        final(table).processes@.drop_last() == old(table).processes@,
        cloned_process(
            process_of(old(table).processes@, current_pid(old(table).processes@)),
            old(table).next_pid,
            final(table).processes@.last(),
        ),
{
    let current_pid = get_current_pid_internal(table);
    let new_pid = table.next_pid;
    table.next_pid = new_pid + 1;
    let p = match find_process(&table.processes, current_pid) {
        Some(i) => {
            let q = table.processes[i];
            Process {
                pid: new_pid,
                ppid: q.pid,
                uid: q.uid,
                gid: q.gid,
                state: ProcessState::Running,
                exit_code: 0,
                cwd: q.cwd,
                cwd_len: q.cwd_len,
            }
        },
        None => {
            let p = Process {
                pid: new_pid,
                ppid: 1,
                uid: 0,
                gid: 0,
                state: ProcessState::Running,
                exit_code: 0,
                cwd: [0u8; 256],
                cwd_len: 1,
            };
            proof {
                assert(p.cwd@ =~= Seq::new(256, |i: int| 0u8));
            }
            p
        },
    };
    proof {
        assert(cloned_process(process_of(old(table).processes@, current_pid), new_pid, p));
    }
    table.processes.push(p);
    proof {
        lemma_pids_push(old(table).processes@, new_pid, p);
        assert(table.processes@.last() == p);
        assert(table.processes@.drop_last() =~= old(table).processes@);
        assert forall|i: int| 0 <= i < table.processes@.len() implies #[trigger] table.processes@[i].cwd_len <= 256 by {
            if i < old(table).processes@.len() {
                assert(table.processes@[i] == old(table).processes@[i]);
            }
        }
    }
    new_pid as isize
}

/// Whether a clone with these flags stores the new pid for the parent.
pub fn clone_sets_parent_tid(flags: u32) -> (b: bool)
    ensures
        b == (flags & CLONE_PARENT_SETTID != 0),
{
    (flags & CLONE_PARENT_SETTID) != 0
}

/// Whether a clone with these flags stores the new pid for the child.
pub fn clone_sets_child_tid(flags: u32) -> (b: bool)
    ensures
        b == (flags & CLONE_CHILD_SETTID != 0),
{
    (flags & CLONE_CHILD_SETTID) != 0
}

/// `fork`: a clone with `FORK_FLAGS`.
pub fn fork_process(table: &mut ProcessTable) -> (r: isize)
    requires
        old(table).next_pid < u32::MAX,
        old(table).wf(),
    ensures
        final(table).wf(),
        r == old(table).next_pid as isize,
        old(table).next_pid >= 1,
        !has_pid(old(table).processes@, old(table).next_pid),
        final(table).next_pid == old(table).next_pid + 1,
        final(table).processes@.drop_last() == old(table).processes@,
        final(table).processes@.len() == old(table).processes@.len() + 1,
        cloned_process(
            process_of(old(table).processes@, current_pid(old(table).processes@)),
            old(table).next_pid,
            final(table).processes@.last(),
        ),
{
    clone_process(table, FORK_FLAGS)
}

/// Marks the running process a zombie with that exit code (nothing happens
/// when it has no entry).
pub fn exit_process(table: &mut ProcessTable, code: i32)
    requires
        old(table).wf(),
    ensures
        final(table).wf(),
        final(table).next_pid == old(table).next_pid,
        ({
            let s = old(table).processes@;
            let pid = current_pid(s);
            if has_pid(s, pid) {
                let i = pid_slot(s, pid);
                final(table).processes@ == s.update(
                    i,
                    Process { state: ProcessState::Zombie, exit_code: code, ..s[i] },
                )
            } else {
                final(table).processes@ == s
            }
        }),
{
    let pid = get_current_pid_internal(table);
    match find_process(&table.processes, pid) {
        Some(i) => {
            let mut p = table.processes[i];
            p.state = ProcessState::Zombie;
            p.exit_code = code;
            table.processes.set(i, p);
            proof {
                lemma_pids_update(old(table).processes@, old(table).next_pid, i as int, p);
                assert forall|j: int| 0 <= j < table.processes@.len() implies #[trigger] table.processes@[j].cwd_len <= 256 by {
                    assert(old(table).processes@[j].cwd_len <= 256);
                }
            }
        },
        None => {},
    }
}

/// `exit_group`: exits the running process.
pub fn exit_group(table: &mut ProcessTable, status: i32)
    requires
        old(table).wf(),
    ensures
        final(table).wf(),
        final(table).next_pid == old(table).next_pid,
        ({
            let s = old(table).processes@;
            let pid = current_pid(s);
            if has_pid(s, pid) {
                let i = pid_slot(s, pid);
                final(table).processes@ == s.update(
                    i,
                    Process { state: ProcessState::Zombie, exit_code: status, ..s[i] },
                )
            } else {
                final(table).processes@ == s
            }
        }),
{
    exit_process(table, status)
}

pub open spec fn first_zombie(s: Seq<Process>, i: int) -> bool {
    &&& 0 <= i < s.len()
    &&& s[i].state == ProcessState::Zombie
    &&& forall|j: int| 0 <= j < i ==> s[j].state != ProcessState::Zombie
}

pub open spec fn has_zombie(s: Seq<Process>) -> bool {
    exists|i: int| 0 <= i < s.len() && s[i].state == ProcessState::Zombie
}

/// The pid `wait` looks for: the first zombie's for `pid == -1`, else `pid`.
pub open spec fn wait_target(s: Seq<Process>, pid: i32) -> Option<u32> {
    if pid == -1 {
        if has_zombie(s) { Some(s[choose|i: int| first_zombie(s, i)].pid) } else { None }
    } else {
        Some(pid as u32)
    }
}

fn find_zombie(processes: &Vec<Process>) -> (r: Option<u32>)
    ensures
        r == (if has_zombie(processes@) {
            Some(processes@[choose|i: int| first_zombie(processes@, i)].pid)
        } else {
            None::<u32>
        }),
{
    let mut i: usize = 0;
    while i < processes.len()
        invariant
            i <= processes@.len(),
            forall|j: int| 0 <= j < i ==> processes@[j].state != ProcessState::Zombie,
        decreases processes@.len() - i,
    {
        if processes[i].state == ProcessState::Zombie {
            proof {
                let k = choose|k: int| first_zombie(processes@, k);
                assert(first_zombie(processes@, i as int));
                assert(first_zombie(processes@, k));
                if k < i {
                    assert(processes@[k].state != ProcessState::Zombie);
                } else if k > i {
                    assert(processes@[i as int].state != ProcessState::Zombie);
                }
            }
            return Some(processes[i].pid);
        }
        i += 1;
    }
    None
}

/// The status word `wait` reports for an exit code.
pub open spec fn wait_status(code: i32) -> i32 {
    (code & 0xFF) << 8
}

/// `wait4`: reaps a child. The target is the first zombie for `pid == -1`
/// (none found: no target), else the process `pid` names. A target with an
/// entry is removed; the answer is its pid, and the second part holds the
/// status word `(exit_code & 0xFF) << 8`, which the caller stores when it
/// passed a status pointer. With no such entry: 0 under `WNOHANG`, else
/// `ECHILD`.
pub fn wait_for_child(table: &mut ProcessTable, pid: i32, options: i32) -> (r: (isize, Option<i32>))
    requires
        old(table).wf(),
    ensures
        final(table).wf(),
        final(table).next_pid == old(table).next_pid,
        ({
            let s = old(table).processes@;
            let target = wait_target(s, pid);
            if target is Some && has_pid(s, target->0) {
                let i = pid_slot(s, target->0);
                &&& r.0 == target->0 as isize
                &&& r.1 == Some(wait_status(s[i].exit_code))
                &&& final(table).processes@ == s.remove(i)
            } else {
                &&& r.0 == (if options & WNOHANG != 0 { 0 } else { ECHILD })
                &&& r.1 is None
                &&& final(table).processes@ == s
            }
        }),
{
    let target = if pid == -1 {
        find_zombie(&table.processes)
    } else {
        Some(pid as u32)
    };
    if let Some(child_pid) = target {
        if let Some(idx) = find_process(&table.processes, child_pid) {
            let exit_code = table.processes[idx].exit_code;
            let status = (exit_code & 0xFF) << 8;
            table.processes.remove(idx);
            proof {
                lemma_pids_remove(old(table).processes@, old(table).next_pid, idx as int);
                assert forall|j: int| 0 <= j < table.processes@.len() implies #[trigger] table.processes@[j].cwd_len <= 256 by {
                    if j < idx {
                        assert(table.processes@[j] == old(table).processes@[j]);
                    } else {
                        assert(table.processes@[j] == old(table).processes@[j + 1]);
                    }
                }
            }
            return (child_pid as isize, Some(status));
        }
    }
    if (options & WNOHANG) != 0 {
        return (0, None);
    }
    (ECHILD, None)
}

/// The parent pid of the running process, or 0 when it has no entry.
pub fn get_parent_pid(table: &ProcessTable) -> (r: u32)
    ensures
        r == (match process_of(table.processes@, current_pid(table.processes@)) {
            Some(p) => p.ppid,
            None => 0,
        }),
{
    let pid = get_current_pid_internal(table);
    match find_process(&table.processes, pid) {
        Some(i) => table.processes[i].ppid,
        None => 0,
    }
}

/// The uid of the running process, or 0 when it has no entry.
pub fn get_current_uid(table: &ProcessTable) -> (r: u32)
    ensures
        r == (match process_of(table.processes@, current_pid(table.processes@)) {
            Some(p) => p.uid,
            None => 0,
        }),
{
    let pid = get_current_pid_internal(table);
    match find_process(&table.processes, pid) {
        Some(i) => table.processes[i].uid,
        None => 0,
    }
}

/// The gid of the running process, or 0 when it has no entry.
pub fn get_current_gid(table: &ProcessTable) -> (r: u32)
    ensures
        r == (match process_of(table.processes@, current_pid(table.processes@)) {
            Some(p) => p.gid,
            None => 0,
        }),
{
    let pid = get_current_pid_internal(table);
    match find_process(&table.processes, pid) {
        Some(i) => table.processes[i].gid,
        None => 0,
    }
}

/// `getcwd`: the bytes to copy to the caller's buffer, the first
/// `min(cwd_len, size)` of the running process's working directory; `Err`
/// holds `EFAULT` when the running process has no entry. (On success the
/// system call answers the buffer's address.)
pub fn get_current_dir(table: &ProcessTable, size: usize) -> (r: Result<Vec<u8>, isize>)
    requires
        table.wf(),
    ensures
        match process_of(table.processes@, current_pid(table.processes@)) {
            Some(p) => r matches Ok(v) && v@ == p.cwd@.subrange(
                0,
                if p.cwd_len < size { p.cwd_len as int } else { size as int },
            ),
            None => r == Err::<Vec<u8>, isize>(EFAULT),
        },
{
    let pid = get_current_pid_internal(table);
    match find_process(&table.processes, pid) {
        Some(i) => {
            let p = &table.processes[i];
            assert(p.cwd_len <= 256);
            let copy_len = if p.cwd_len < size { p.cwd_len } else { size };
            let mut out: Vec<u8> = Vec::new();
            let mut k: usize = 0;
            while k < copy_len
                invariant
                    copy_len <= 256,
                    k <= copy_len,
                    out@ == p.cwd@.subrange(0, k as int),
                decreases copy_len - k,
            {
                out.push(p.cwd[k]);
                k += 1;
                proof {
                    assert(out@ =~= p.cwd@.subrange(0, k as int));
                }
            }
            Ok(out)
        },
        None => Err(EFAULT),
    }
}

/// The working directory after `chdir(path)`: the path's bytes up to its
/// NUL (at most 255) over the start of the old one.
pub open spec fn changed_cwd(old: Seq<u8>, path: Seq<u8>) -> Seq<u8> {
    let n = c_str_len_spec(path, 255);
    path.subrange(0, n) + old.subrange(n, 256)
}

/// `chdir`: copies the C string in `path` (at most 255 bytes) over the
/// running process's working directory. Answers 0, or `EFAULT` when the
/// running process has no entry.
pub fn change_dir(table: &mut ProcessTable, path: &[u8]) -> (r: isize)
    requires
        old(table).wf(),
    ensures
        final(table).wf(),
        final(table).next_pid == old(table).next_pid,
        ({
            let s = old(table).processes@;
            let pid = current_pid(s);
            if has_pid(s, pid) {
                let i = pid_slot(s, pid);
                let n = final(table).processes@[i];
                &&& r == 0
                &&& final(table).processes@ == s.update(i, n)
                &&& n.cwd@ == changed_cwd(s[i].cwd@, path@)
                &&& n.cwd_len == c_str_len_spec(path@, 255)
                &&& n == Process { cwd: n.cwd, cwd_len: n.cwd_len, ..s[i] }
            } else {
                r == EFAULT && final(table).processes@ == s
            }
        }),
{
    let pid = get_current_pid_internal(table);
    match find_process(&table.processes, pid) {
        Some(i) => {
            let mut p = table.processes[i];
            let len = c_str_len(path, 255);
            let mut k: usize = 0;
            while k < len
                invariant
                    len <= 255,
                    len <= path@.len(),
                    k <= len,
                    p.cwd@.len() == 256,
                    forall|j: int| 0 <= j < k ==> p.cwd@[j] == path@[j],
                    forall|j: int| k <= j < 256 ==> p.cwd@[j] == old(table).processes@[i as int].cwd@[j],
                    p == (Process { cwd: p.cwd, ..old(table).processes@[i as int] }),
                decreases len - k,
            {
                p.cwd[k] = path[k];
                k += 1;
            }
            p.cwd_len = len;
            proof {
                assert(p.cwd@ =~= changed_cwd(old(table).processes@[i as int].cwd@, path@));
            }
            table.processes.set(i, p);
            proof {
                lemma_pids_update(old(table).processes@, old(table).next_pid, i as int, p);
                assert forall|j: int| 0 <= j < table.processes@.len() implies #[trigger] table.processes@[j].cwd_len <= 256 by {
                    assert(old(table).processes@[j].cwd_len <= 256);
                }
            }
            0
        },
        None => EFAULT,
    }
}

/// What `getcwd` reads back after `chdir`: once the running process's entry
/// has taken the new directory as `change_dir` leaves it, the running
/// process is still the same one, and a buffer that holds the path gets
/// exactly the path's bytes up to its NUL (at most 255).
pub proof fn lemma_chdir_then_getcwd(s: Seq<Process>, path: Seq<u8>, n: Process, size: usize)
    requires
        has_pid(s, current_pid(s)),
        n.cwd@ == changed_cwd(s[pid_slot(s, current_pid(s))].cwd@, path),
        n.cwd_len == c_str_len_spec(path, 255),
        n == (Process { cwd: n.cwd, cwd_len: n.cwd_len, ..s[pid_slot(s, current_pid(s))] }),
        c_str_len_spec(path, 255) <= size,
    ensures
        ({
            let s2 = s.update(pid_slot(s, current_pid(s)), n);
            &&& current_pid(s2) == current_pid(s)
            &&& process_of(s2, current_pid(s2)) == Some(n)
            &&& n.cwd@.subrange(0, if n.cwd_len < size { n.cwd_len as int } else { size as int })
                == path.subrange(0, c_str_len_spec(path, 255))
        }),
{
    let pid = current_pid(s);
    lemma_slot_is_first(s, pid);
    let i = pid_slot(s, pid);
    let s2 = s.update(i, n);
    assert(current_pid(s2) == pid) by {
        if i == s.len() - 1 {
            assert(s2.last() == n);
        } else {
            assert(s2.last() == s.last());
        }
    }
    assert(first_with_pid(s2, pid, i)) by {
        assert forall|j: int| 0 <= j < i implies s2[j].pid != pid by {
            assert(s2[j] == s[j]);
        }
    }
    lemma_pid_slot(s2, pid, i);
    assert(has_pid(s2, pid)) by {
        assert(s2[i].pid == pid);
    }
    lemma_c_str_len_bounds(path, 255);
    let len = c_str_len_spec(path, 255);
    assert(n.cwd@.subrange(0, len) =~= path.subrange(0, len));
}

/// The slot `pid_slot` gives is the first one with the pid.
proof fn lemma_slot_is_first(s: Seq<Process>, pid: u32)
    requires
        has_pid(s, pid),
    ensures
        first_with_pid(s, pid, pid_slot(s, pid)),
{
    let w = choose|w: int| 0 <= w < s.len() && s[w].pid == pid;
    lemma_first_index(s, pid, w);
    let k = choose|k: int| 0 <= k <= w && s[k].pid == pid && forall|j: int| 0 <= j < k ==> s[j].pid != pid;
    assert(first_with_pid(s, pid, k));
}

/// Some slot with the pid has a first one at or before it.
proof fn lemma_first_index(s: Seq<Process>, pid: u32, w: int)
    requires
        0 <= w < s.len(),
        s[w].pid == pid,
    ensures
        exists|k: int| 0 <= k <= w && s[k].pid == pid && forall|j: int| 0 <= j < k ==> s[j].pid != pid,
    decreases w,
{
    if exists|j: int| 0 <= j < w && s[j].pid == pid {
        let j = choose|j: int| 0 <= j < w && s[j].pid == pid;
        lemma_first_index(s, pid, j);
    } else {
        assert(forall|j: int| 0 <= j < w ==> s[j].pid != pid);
    }
}

/// Waiting for a process that has exited reaps it: after the running
/// process exits with `code`, a wait for its pid answers that pid with the
/// status of `code`, and the table no longer holds it.
pub proof fn lemma_exit_then_wait(s: Seq<Process>, next: u32, code: i32)
    requires
        pids_issued(s, next),
        has_pid(s, current_pid(s)),
        current_pid(s) <= i32::MAX,
    ensures
        ({
            let pid = current_pid(s);
            let i = pid_slot(s, pid);
            let s2 = s.update(i, Process { state: ProcessState::Zombie, exit_code: code, ..s[i] });
            &&& wait_target(s2, pid as i32) == Some(pid)
            &&& has_pid(s2, pid)
            &&& pid_slot(s2, pid) == i
            &&& wait_status(s2[i].exit_code) == wait_status(code)
            &&& !has_pid(s2.remove(i), pid)
        }),
{
    let pid = current_pid(s);
    lemma_slot_is_first(s, pid);
    let i = pid_slot(s, pid);
    let s2 = s.update(i, Process { state: ProcessState::Zombie, exit_code: code, ..s[i] });
    assert(first_with_pid(s2, pid, i)) by {
        assert forall|j: int| 0 <= j < i implies s2[j].pid != pid by {
            assert(s2[j] == s[j]);
        }
    }
    lemma_pid_slot(s2, pid, i);
    assert(s2[i].pid == pid);
    lemma_pids_update(s, next, i, s2[i]);
    let t = s2.remove(i);
    if has_pid(t, pid) {
        let k = choose|k: int| 0 <= k < t.len() && t[k].pid == pid;
        let k2 = if k < i { k } else { k + 1 };
        assert(t[k] == s2[k2]);
        assert(s2[k2].pid != s2[i].pid);
    }
}

} // verus!
