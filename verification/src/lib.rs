//! A read-only FAT32 driver over an abstract byte-addressable storage source.

pub mod device;
pub mod fs;
