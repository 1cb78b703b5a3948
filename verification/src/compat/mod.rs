pub mod ipc;
pub mod process;
pub mod threading;
pub mod signal;
pub mod vfs_bridge;
pub mod posix;
pub mod linux_syscalls;
