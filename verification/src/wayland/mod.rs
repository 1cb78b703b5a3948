pub mod protocol;
pub mod shm;
pub mod compositor_bridge;
pub mod server;
