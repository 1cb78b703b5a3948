use wishy::compat::ipc::{
    EAGAIN, EBADF, EpollTable, MSG_DONTWAIT, SocketState, SocketTable, accept_socket, bind_socket, connect_socket,
    create_socket, epoll_wait, listen_socket, recv_from, send_to,
};
use wishy::compat::linux_syscalls::{
    LinuxCall, SystemTicks, get_system_ticks, linux_syscall_handler, sys_clock_gettime, sys_getrandom, sys_utimensat,
};
use wishy::compat::posix::init_posix_environment;
use wishy::compat::process::{
    ECHILD, EFAULT, ProcessState, ProcessTable, WNOHANG, change_dir, clone_process, clone_sets_child_tid,
    clone_sets_parent_tid, exit_process, fork_process, get_current_dir, get_current_pid, get_parent_pid,
    wait_for_child,
};
use wishy::compat::signal::{SignalHandler, SignalState, modify_signal_mask, send_signal, set_signal_handler};
use wishy::compat::threading::{FUTEX_WAIT, FUTEX_WAKE, FutexTable, ThreadTable, futex_wait_wake, get_thread_id};
use wishy::syscall::{FdTable, SyscallRoute, init, route_syscall, sys_close, sys_open};

#[test]
fn routes_system_calls() {
    assert!(matches!(route_syscall(0), SyscallRoute::Read));
    assert!(matches!(route_syscall(9), SyscallRoute::Mmap));
    assert!(matches!(route_syscall(60), SyscallRoute::Exit));
    assert!(matches!(route_syscall(7), SyscallRoute::Linux));
    assert!(matches!(route_syscall(257), SyscallRoute::Linux));
}

#[test]
fn open_and_close_descriptors() {
    let mut t = FdTable::new();
    init(&mut t);
    assert_eq!(t.slots.len(), 256);
    assert_eq!(sys_open(&mut t, b"/etc/motd\0junk", 0), 0);
    assert_eq!(t.slots[0].as_ref().unwrap().path, b"/etc/motd".to_vec());
    assert_eq!(sys_open(&mut t, b"/b\0", 1), 1);
    assert_eq!(sys_close(&mut t, 0), 0);
    assert!(t.slots[0].is_none());
    assert_eq!(sys_open(&mut t, b"/c\0", 2), 0);
    assert_eq!(sys_close(&mut t, -1), -1);
    assert_eq!(sys_close(&mut t, 300), -1);
}

#[test]
fn open_fails_when_full() {
    let mut t = FdTable::new();
    assert_eq!(sys_open(&mut t, b"/x\0", 0), -1);
}

#[test]
fn posix_environment_opens_standard_streams() {
    let mut t = FdTable::new();
    init(&mut t);
    init_posix_environment(&mut t);
    assert_eq!(t.slots.len(), 256);
    assert_eq!(t.slots[1].as_ref().unwrap().path, b"/dev/stdout".to_vec());
    assert!(t.slots[0].is_some() && t.slots[1].is_some() && t.slots[2].is_some());
}

#[test]
fn decodes_linux_calls() {
    let args = [3usize, 0x1000, 64, 0, 0, 0];
    assert!(matches!(linux_syscall_handler(0, &args), LinuxCall::Read { fd: 3, buf: 0x1000, count: 64 }));
    let m = [0usize, 8192, 3, 0x22, usize::MAX, 0];
    assert!(matches!(
        linux_syscall_handler(9, &m),
        LinuxCall::Mmap { addr: 0, length: 8192, prot: 3, flags: 0x22, fd: -1, offset: 0 }
    ));
    assert!(matches!(linux_syscall_handler(39, &args), LinuxCall::Getpid));
    assert!(matches!(linux_syscall_handler(999, &args), LinuxCall::Unknown));
    assert!(matches!(linux_syscall_handler(7, &args), LinuxCall::Unknown));
}

#[test]
fn clock_and_random_follow_the_tick_counter() {
    let mut t = SystemTicks::new();
    assert_eq!(get_system_ticks(&mut t), 1);
    t.ticks = 2499;
    assert_eq!(sys_clock_gettime(&mut t, 0), (0, 2, 500_000_000));
    t.ticks = 254;
    let (n, bytes) = sys_getrandom(&mut t, 3);
    assert_eq!(n, 3);
    assert_eq!(bytes, vec![255, 0, 1]);
    assert_eq!(sys_utimensat(0, 0, 0, 0), 0);
}

#[test]
fn process_lifecycle() {
    let mut p = ProcessTable::new();
    assert_eq!(get_current_pid(&p), 1);
    assert_eq!(fork_process(&mut p), 1);
    assert_eq!(clone_process(&mut p, 0), 2);
    // the newest process runs; its parent is the first
    assert_eq!(get_current_pid(&p), 2);
    assert_eq!(get_parent_pid(&p), 1);
    exit_process(&mut p, 7);
    assert!(matches!(p.processes[1].state, ProcessState::Zombie));
    assert_eq!(wait_for_child(&mut p, -1, 0), (2, Some(7 << 8)));
    assert_eq!(p.processes.len(), 1);
    assert_eq!(wait_for_child(&mut p, 9, WNOHANG), (0, None));
    assert_eq!(wait_for_child(&mut p, 9, 0), (ECHILD, None));
    assert!(clone_sets_parent_tid(0x0010_0000 | 0x0001_0000));
    assert!(!clone_sets_child_tid(0x0001_0000));
}

#[test]
fn working_directory() {
    let mut p = ProcessTable::new();
    assert_eq!(get_current_dir(&p, 10), Err(EFAULT));
    fork_process(&mut p);
    assert_eq!(get_current_dir(&p, 10), Ok(vec![0]));
    assert_eq!(change_dir(&mut p, b"/home\0"), 0);
    assert_eq!(get_current_dir(&p, 3), Ok(b"/ho".to_vec()));
    // a buffer that holds the path reads back exactly the path
    assert_eq!(get_current_dir(&p, 256), Ok(b"/home".to_vec()));
    assert_eq!(change_dir(&mut p, b"/\0"), 0);
    assert_eq!(get_current_dir(&p, 256), Ok(b"/".to_vec()));
}

#[test]
fn sockets() {
    let mut t = SocketTable::new();
    let s = create_socket(&mut t, 1, 1, 0);
    assert_eq!(s, 1024);
    assert_eq!(bind_socket(&mut t, s as i32, b"/tmp/sock", 9), 0);
    assert_eq!(&t.sockets[0].local_addr[..9], b"/tmp/sock");
    assert!(t.sockets[0].state == SocketState::Bound);
    assert_eq!(accept_socket(&mut t, s as i32, 0, 0), EBADF);
    assert_eq!(listen_socket(&mut t, s as i32, 5), 0);
    assert_eq!(accept_socket(&mut t, s as i32, 0, 0), 1025);
    assert!(t.sockets[1].state == SocketState::Connected);
    assert_eq!(connect_socket(&mut t, 77, b"x", 1), EBADF);
    assert_eq!(send_to(&t, 1025, 0, 12, 0, 0, 0), 12);
    assert_eq!(send_to(&t, 5, 0, 12, 0, 0, 0), EBADF);
    t.sockets[1].buffer = vec![1, 2, 3, 4];
    assert_eq!(recv_from(&mut t, 1025, 3, 0), (3, vec![1, 2, 3]));
    assert_eq!(recv_from(&mut t, 1025, 3, 0), (1, vec![4]));
    assert_eq!(recv_from(&mut t, 1025, 3, MSG_DONTWAIT), (EAGAIN, vec![]));
    assert_eq!(recv_from(&mut t, 1025, 3, 0), (0, vec![]));
    assert_eq!(epoll_wait(&EpollTable::new(), 3, 0, 1, 0), EBADF);
}

#[test]
fn futexes() {
    let mut f = FutexTable::new();
    let threads = ThreadTable::new();
    assert_eq!(get_thread_id(&threads), 1);
    assert_eq!(futex_wait_wake(&mut f, &threads, 0x100, FUTEX_WAIT, 5, 4), EAGAIN as isize);
    assert_eq!(futex_wait_wake(&mut f, &threads, 0x100, FUTEX_WAIT, 5, 5), 0);
    assert_eq!(futex_wait_wake(&mut f, &threads, 0x100, FUTEX_WAIT | 128, 5, 5), 0);
    assert_eq!(f.waiters.get(&0x100).unwrap(), &vec![1, 1]);
    assert_eq!(futex_wait_wake(&mut f, &threads, 0x100, FUTEX_WAKE, 1, 0), 1);
    assert_eq!(f.waiters.get(&0x100).unwrap(), &vec![1]);
    assert_eq!(futex_wait_wake(&mut f, &threads, 0x200, FUTEX_WAKE, 1, 0), 0);
    assert_eq!(futex_wait_wake(&mut f, &threads, 0x100, 9, 1, 0), -38);
    // a wake that covers the queue releases everyone and empties it
    assert_eq!(futex_wait_wake(&mut f, &threads, 0x100, FUTEX_WAIT, 7, 7), 0);
    assert_eq!(futex_wait_wake(&mut f, &threads, 0x100, FUTEX_WAKE, 10, 0), 2);
    assert!(f.waiters.get(&0x100).unwrap().is_empty());
}

#[test]
fn signals() {
    let mut s = SignalState::new();
    let procs = ProcessTable::new();
    let h = SignalHandler { handler: 0x4000, flags: 0, mask: 0 };
    let (r, prev) = set_signal_handler(&mut s, &procs, 2, Some(h));
    assert_eq!(r, 0);
    assert!(prev.is_none());
    assert_eq!(send_signal(&s, 1, 2), (0, Some(0x4000)));
    assert_eq!(send_signal(&s, 1, 3), (0, None));
    let ignore = SignalHandler { handler: 1, flags: 0, mask: 0 };
    let (_, prev) = set_signal_handler(&mut s, &procs, 2, Some(ignore));
    assert_eq!(prev.unwrap().handler, 0x4000);
    assert_eq!(send_signal(&s, 1, 2), (0, None));
    assert_eq!(modify_signal_mask(&mut s, &procs, 2, Some(0b1010)), (0, 0));
    assert_eq!(modify_signal_mask(&mut s, &procs, 0, Some(0b0101)), (0, 0b1010));
    assert_eq!(modify_signal_mask(&mut s, &procs, 1, Some(0b0011)), (0, 0b1111));
    assert_eq!(modify_signal_mask(&mut s, &procs, 0, None), (0, 0b1100));
}
