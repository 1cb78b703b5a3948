pub mod virtio_gpu;
pub mod drm;
pub mod egl;
