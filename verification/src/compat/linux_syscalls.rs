use vstd::prelude::*;
use crate::memory::mmap::{MmapState, map_address, mmap, mmap_fits, mmapped, munmap};
use crate::memory::paging::PageTables;

verus! {

/// The error answered to a call the kernel does not implement.
pub const ENOSYS: isize = -38;
/// The error answered when `mmap` fails.
pub const ENOMEM: isize = -12;
/// The error answered when `munmap` fails.
pub const EINVAL: isize = -22;

/// A Linux system call with its arguments taken from the six argument
/// registers, converted to the types the call expects.
pub enum LinuxCall {
    Read { fd: i32, buf: usize, count: usize },
    Write { fd: i32, buf: usize, count: usize },
    Open { path: usize, flags: i32, mode: u32 },
    Close { fd: i32 },
    Stat { path: usize, statbuf: usize },
    Fstat { fd: i32, statbuf: usize },
    Mmap { addr: usize, length: usize, prot: i32, flags: i32, fd: i32, offset: usize },
    Munmap { addr: usize, length: usize },
    RtSigaction { signum: i32, act: usize, oldact: usize },
    RtSigprocmask { how: i32, set: usize, oldset: usize },
    SchedYield,
    Getpid,
    Socket { domain: i32, sock_type: i32, protocol: i32 },
    Connect { sockfd: i32, addr: usize, addrlen: usize },
    Accept { sockfd: i32, addr: usize, addrlen: usize },
    Sendto { sockfd: i32, buf: usize, len: usize, flags: i32, dest_addr: usize, addrlen: usize },
    Recvfrom { sockfd: i32, buf: usize, len: usize, flags: i32, src_addr: usize, addrlen: usize },
    Bind { sockfd: i32, addr: usize, addrlen: usize },
    Listen { sockfd: i32, backlog: i32 },
    Clone { clone_flags: u32, stack: usize, ptid: usize, ctid: usize, tls: usize },
    Fork,
    Execve { filename: usize, argv: usize, envp: usize },
    Exit { code: i32 },
    Wait4 { pid: i32, status: usize, options: i32, rusage: usize },
    Fcntl { fd: i32, cmd: i32, arg: usize },
    Getcwd { buf: usize, size: usize },
    Chdir { path: usize },
    Getuid,
    Getgid,
    Getppid,
    Gettid,
    Futex { uaddr: usize, op: i32, val: i32, timeout: usize, uaddr2: usize, val3: i32 },
    SetTidAddress { tidptr: usize },
    ClockGettime { clockid: i32, tp: usize },
    ExitGroup { exit_status: i32 },
    Openat { dirfd: i32, path: usize, flags: i32, mode: u32 },
    Newfstatat { dirfd: i32, path: usize, statbuf: usize, flags: i32 },
    Utimensat { dirfd: i32, path: usize, times: usize, flags: i32 },
    EpollPwait { epfd: i32, events: usize, maxevents: i32, timeout_ms: i32, sigmask: usize },
    Getrandom { buf: usize, buflen: usize, random_flags: u32 },
    Unknown,
}

/// The call that a number and its arguments make.
pub open spec fn linux_call(num: u32, a: Seq<usize>) -> LinuxCall {
    match num {
        0 => LinuxCall::Read { fd: a[0] as i32, buf: a[1], count: a[2] },
        1 => LinuxCall::Write { fd: a[0] as i32, buf: a[1], count: a[2] },
        2 => LinuxCall::Open { path: a[0], flags: a[1] as i32, mode: a[2] as u32 },
        3 => LinuxCall::Close { fd: a[0] as i32 },
        4 => LinuxCall::Stat { path: a[0], statbuf: a[1] },
        5 => LinuxCall::Fstat { fd: a[0] as i32, statbuf: a[1] },
        9 => LinuxCall::Mmap { addr: a[0], length: a[1], prot: a[2] as i32, flags: a[3] as i32, fd: a[4] as i32, offset: a[5] },
        11 => LinuxCall::Munmap { addr: a[0], length: a[1] },
        13 => LinuxCall::RtSigaction { signum: a[0] as i32, act: a[1], oldact: a[2] },
        14 => LinuxCall::RtSigprocmask { how: a[0] as i32, set: a[1], oldset: a[2] },
        24 => LinuxCall::SchedYield,
        39 => LinuxCall::Getpid,
        41 => LinuxCall::Socket { domain: a[0] as i32, sock_type: a[1] as i32, protocol: a[2] as i32 },
        42 => LinuxCall::Connect { sockfd: a[0] as i32, addr: a[1], addrlen: a[2] },
        43 => LinuxCall::Accept { sockfd: a[0] as i32, addr: a[1], addrlen: a[2] },
        44 => LinuxCall::Sendto { sockfd: a[0] as i32, buf: a[1], len: a[2], flags: a[3] as i32, dest_addr: a[4], addrlen: a[5] },
        45 => LinuxCall::Recvfrom { sockfd: a[0] as i32, buf: a[1], len: a[2], flags: a[3] as i32, src_addr: a[4], addrlen: a[5] },
        49 => LinuxCall::Bind { sockfd: a[0] as i32, addr: a[1], addrlen: a[2] },
        50 => LinuxCall::Listen { sockfd: a[0] as i32, backlog: a[1] as i32 },
        56 => LinuxCall::Clone { clone_flags: a[0] as u32, stack: a[1], ptid: a[2], ctid: a[3], tls: a[4] },
        57 => LinuxCall::Fork,
        59 => LinuxCall::Execve { filename: a[0], argv: a[1], envp: a[2] },
        60 => LinuxCall::Exit { code: a[0] as i32 },
        61 => LinuxCall::Wait4 { pid: a[0] as i32, status: a[1], options: a[2] as i32, rusage: a[3] },
        72 => LinuxCall::Fcntl { fd: a[0] as i32, cmd: a[1] as i32, arg: a[2] },
        79 => LinuxCall::Getcwd { buf: a[0], size: a[1] },
        80 => LinuxCall::Chdir { path: a[0] },
        102 => LinuxCall::Getuid,
        104 => LinuxCall::Getgid,
        110 => LinuxCall::Getppid,
        186 => LinuxCall::Gettid,
        202 => LinuxCall::Futex { uaddr: a[0], op: a[1] as i32, val: a[2] as i32, timeout: a[3], uaddr2: a[4], val3: a[5] as i32 },
        218 => LinuxCall::SetTidAddress { tidptr: a[0] },
        228 => LinuxCall::ClockGettime { clockid: a[0] as i32, tp: a[1] },
        231 => LinuxCall::ExitGroup { exit_status: a[0] as i32 },
        257 => LinuxCall::Openat { dirfd: a[0] as i32, path: a[1], flags: a[2] as i32, mode: a[3] as u32 },
        262 => LinuxCall::Newfstatat { dirfd: a[0] as i32, path: a[1], statbuf: a[2], flags: a[3] as i32 },
        280 => LinuxCall::Utimensat { dirfd: a[0] as i32, path: a[1], times: a[2], flags: a[3] as i32 },
        281 => LinuxCall::EpollPwait { epfd: a[0] as i32, events: a[1], maxevents: a[2] as i32, timeout_ms: a[3] as i32, sigmask: a[4] },
        318 => LinuxCall::Getrandom { buf: a[0], buflen: a[1], random_flags: a[2] as u32 },
        _ => LinuxCall::Unknown,
    }
}

/// Decodes a Linux system call from its number and argument registers:
/// the call and its typed arguments, or `Unknown` (answered with
/// `ENOSYS`) for a number the kernel does not implement.
pub fn linux_syscall_handler(num: u32, args: &[usize; 6]) -> (call: LinuxCall)
    ensures
        call == linux_call(num, args@),
{
    match num {
        0 => LinuxCall::Read { fd: args[0] as i32, buf: args[1], count: args[2] },
        1 => LinuxCall::Write { fd: args[0] as i32, buf: args[1], count: args[2] },
        2 => LinuxCall::Open { path: args[0], flags: args[1] as i32, mode: args[2] as u32 },
        3 => LinuxCall::Close { fd: args[0] as i32 },
        4 => LinuxCall::Stat { path: args[0], statbuf: args[1] },
        5 => LinuxCall::Fstat { fd: args[0] as i32, statbuf: args[1] },
        9 => LinuxCall::Mmap { addr: args[0], length: args[1], prot: args[2] as i32, flags: args[3] as i32, fd: args[4] as i32, offset: args[5] },
        11 => LinuxCall::Munmap { addr: args[0], length: args[1] },
        13 => LinuxCall::RtSigaction { signum: args[0] as i32, act: args[1], oldact: args[2] },
        14 => LinuxCall::RtSigprocmask { how: args[0] as i32, set: args[1], oldset: args[2] },
        24 => LinuxCall::SchedYield,
        39 => LinuxCall::Getpid,
        41 => LinuxCall::Socket { domain: args[0] as i32, sock_type: args[1] as i32, protocol: args[2] as i32 },
        42 => LinuxCall::Connect { sockfd: args[0] as i32, addr: args[1], addrlen: args[2] },
        43 => LinuxCall::Accept { sockfd: args[0] as i32, addr: args[1], addrlen: args[2] },
        44 => LinuxCall::Sendto { sockfd: args[0] as i32, buf: args[1], len: args[2], flags: args[3] as i32, dest_addr: args[4], addrlen: args[5] },
        45 => LinuxCall::Recvfrom { sockfd: args[0] as i32, buf: args[1], len: args[2], flags: args[3] as i32, src_addr: args[4], addrlen: args[5] },
        49 => LinuxCall::Bind { sockfd: args[0] as i32, addr: args[1], addrlen: args[2] },
        50 => LinuxCall::Listen { sockfd: args[0] as i32, backlog: args[1] as i32 },
        56 => LinuxCall::Clone { clone_flags: args[0] as u32, stack: args[1], ptid: args[2], ctid: args[3], tls: args[4] },
        57 => LinuxCall::Fork,
        59 => LinuxCall::Execve { filename: args[0], argv: args[1], envp: args[2] },
        60 => LinuxCall::Exit { code: args[0] as i32 },
        61 => LinuxCall::Wait4 { pid: args[0] as i32, status: args[1], options: args[2] as i32, rusage: args[3] },
        72 => LinuxCall::Fcntl { fd: args[0] as i32, cmd: args[1] as i32, arg: args[2] },
        79 => LinuxCall::Getcwd { buf: args[0], size: args[1] },
        80 => LinuxCall::Chdir { path: args[0] },
        102 => LinuxCall::Getuid,
        104 => LinuxCall::Getgid,
        110 => LinuxCall::Getppid,
        186 => LinuxCall::Gettid,
        202 => LinuxCall::Futex { uaddr: args[0], op: args[1] as i32, val: args[2] as i32, timeout: args[3], uaddr2: args[4], val3: args[5] as i32 },
        218 => LinuxCall::SetTidAddress { tidptr: args[0] },
        228 => LinuxCall::ClockGettime { clockid: args[0] as i32, tp: args[1] },
        231 => LinuxCall::ExitGroup { exit_status: args[0] as i32 },
        257 => LinuxCall::Openat { dirfd: args[0] as i32, path: args[1], flags: args[2] as i32, mode: args[3] as u32 },
        262 => LinuxCall::Newfstatat { dirfd: args[0] as i32, path: args[1], statbuf: args[2], flags: args[3] as i32 },
        280 => LinuxCall::Utimensat { dirfd: args[0] as i32, path: args[1], times: args[2], flags: args[3] as i32 },
        281 => LinuxCall::EpollPwait { epfd: args[0] as i32, events: args[1], maxevents: args[2] as i32, timeout_ms: args[3] as i32, sigmask: args[4] },
        318 => LinuxCall::Getrandom { buf: args[0], buflen: args[1], random_flags: args[2] as u32 },
        _ => LinuxCall::Unknown,
    }
}

/// The kernel's tick counter; every reading advances it by one.
pub struct SystemTicks {
    pub ticks: u64,
}

impl SystemTicks {
    pub fn new() -> (t: Self)
        ensures
            t.ticks == 0,
    {
        SystemTicks { ticks: 0 }
    }
}

/// Advances the tick counter and reads it.
pub fn get_system_ticks(t: &mut SystemTicks) -> (v: u64)
    requires
        old(t).ticks < u64::MAX,
    ensures
        v == old(t).ticks + 1,
        final(t).ticks == v,
{
    t.ticks = t.ticks + 1;
    t.ticks
}

/// `clock_gettime`: the tick counter read as milliseconds, given as
/// seconds and nanoseconds; always succeeds.
pub fn sys_clock_gettime(t: &mut SystemTicks, clockid: i32) -> (r: (isize, u64, u64))
    requires
        old(t).ticks < u64::MAX,
    ensures
        final(t).ticks == old(t).ticks + 1,
        r.0 == 0,
        r.1 == final(t).ticks / 1000,
        r.2 == (final(t).ticks % 1000) * 1000000,
{
    let ticks = get_system_ticks(t);
    (0, ticks / 1000, (ticks % 1000) * 1000000)
}

/// `getrandom`: each byte is the low byte of a fresh reading of the tick
/// counter; answers the byte count.
pub fn sys_getrandom(t: &mut SystemTicks, buflen: usize) -> (r: (isize, Vec<u8>))
    requires
        old(t).ticks + buflen <= u64::MAX,
    ensures
        final(t).ticks == old(t).ticks + buflen,
        r.0 == buflen as isize,
        r.1@.len() == buflen,
        forall|i: int| 0 <= i < buflen ==> #[trigger] r.1@[i] == ((old(t).ticks + i + 1) % 256) as u8,
{
    let mut out: Vec<u8> = Vec::new();
    let mut i: usize = 0;
    while i < buflen
        invariant
            i <= buflen,
            old(t).ticks + buflen <= u64::MAX,
            t.ticks == old(t).ticks + i,
            out@.len() == i,
            forall|j: int| 0 <= j < i ==> #[trigger] out@[j] == ((old(t).ticks + j + 1) % 256) as u8,
        decreases buflen - i,
    {
        let v = get_system_ticks(t);
        let b = (v & 0xFF) as u8;
        assert(v & 0xFF == v % 256) by (bit_vector);
        out.push(b);
        i += 1;
    }
    (buflen as isize, out)
}

/// `munmap`: drops the matching mappings; 0, or `EINVAL` on failure.
pub fn sys_munmap(state: &mut MmapState, addr: usize, length: usize) -> (r: isize)
    ensures
        r == 0,
        final(state).regions@ == old(state).regions@.filter(|g: crate::memory::mmap::MmapRegion| g.addr != addr || g.size != length),
{
    match munmap(state, addr, length) {
        Ok(_) => 0,
        Err(_) => EINVAL,
    }
}

/// `mmap`: maps memory (see `mmap`); answers the address, or `ENOMEM`.
pub fn sys_mmap(state: &mut MmapState, pt: &mut PageTables, addr: usize, length: usize, prot: i32, flags: i32, fd: i32, offset: usize) -> (r: isize)
    requires
        old(pt).wf(),
        mmap_fits(*old(state), *old(pt), addr, length, flags),
    ensures
        final(pt).wf(),
        r == map_address(*old(state), addr) as isize,
        mmapped(*old(state), *old(pt), *final(state), *final(pt), addr, length, flags, fd, offset),
{
    match mmap(state, pt, addr, length, prot, flags, fd, offset) {
        Ok(a) => a as isize,
        Err(_) => ENOMEM,
    }
}

/// `utimensat`: times are not kept, so it succeeds without effect.
pub fn sys_utimensat(dirfd: i32, path: usize, times: usize, flags: i32) -> (r: isize)
    ensures
        r == 0,
{
    0
}

} // verus!
