pub mod elf;
pub mod loader;
