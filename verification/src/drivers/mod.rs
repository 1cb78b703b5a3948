pub mod block;
pub mod fb;
