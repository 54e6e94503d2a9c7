//! Device-facing logic: the block buffer cache and the framebuffer,
//! block, input and network device bookkeeping.

pub mod bio;
pub mod ramfb;
pub mod virtio_blk;
pub mod virtio_input;
pub mod virtio_net;
