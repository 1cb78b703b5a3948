pub mod compat;
pub mod console;
pub mod drivers;
pub mod exec;
pub mod fs;
pub mod gpu;
pub mod gui;
pub mod memory;
pub mod pixels;
pub mod syscall;
pub mod util;
pub mod wayland;
