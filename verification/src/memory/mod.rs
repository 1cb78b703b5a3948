pub mod heap;
pub mod paging;
pub mod mmap;
