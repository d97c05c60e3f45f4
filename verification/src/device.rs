//! Storage sources.

pub mod block_device;
