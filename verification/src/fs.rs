//! The FAT32 read path, layer by layer.

pub mod boot_sector;
pub mod clusters;
pub mod directory;
pub mod endian;
pub mod fat;
pub mod path;
