pub mod icons;
pub mod surface;
pub mod theme;
pub mod tiles;
pub mod input;
pub mod animation;
pub mod renderer;
pub mod compositor;
