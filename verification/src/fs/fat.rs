//! The File Allocation Table: which cluster follows which.

use crate::device::block_device::{read_result, BlockDevice, BlockDeviceError};
use crate::fs::boot_sector::BootSector;
use crate::fs::endian::{le_u32, read_le_u32};
use vstd::prelude::*;

verus! {

/// Size in bytes of one FAT entry.
pub const FAT_ENTRY_SIZE: u64 = 4;

/// A FAT entry carries its value in the low 28 bits: 2^28.
pub const FAT_VALUE_RANGE: u32 = 0x1000_0000;

/// The last value that points to a next cluster.
pub const LAST_CLUSTER: u32 = 0x0FFF_FFEF;

/// The value that marks a bad cluster.
pub const BAD_CLUSTER: u32 = 0x0FFF_FFF7;

/// The first of the values that mark the end of a chain.
pub const END_OF_CHAIN: u32 = 0x0FFF_FFF8;

/// Reasons a chain cannot be followed.
#[derive(Debug, Clone, Copy, PartialEq, Eq)]
pub enum FatError {
    /// The entry could not be read from the storage source.
    Io(BlockDeviceError),
    /// The entry marks a bad cluster.
    BadCluster,
    /// The entry does not continue a chain: it is free (0 or 1) or holds a
    /// reserved value.
    FreeClusterInChain,
}

impl From<BlockDeviceError> for FatError {
    fn from(e: BlockDeviceError) -> (err: Self) {
        FatError::Io(e)
    }
}

impl vstd::std_specs::convert::FromSpecImpl<BlockDeviceError> for FatError {
    open spec fn obeys_from_spec() -> bool {
        true
    }

    open spec fn from_spec(e: BlockDeviceError) -> Self {
        FatError::Io(e)
    }
}

/// Byte offset, from the start of the medium, of the entry of `cluster` in
/// the first FAT copy.
pub open spec fn fat_entry_offset(boot: BootSector, cluster: u32) -> int {
    boot.reserved_sectors * boot.bytes_per_sector + cluster * FAT_ENTRY_SIZE
}

/// What the 32 bits of a FAT entry say about the chain, by the value of
/// their low 28 bits.
pub open spec fn classify(raw: u32) -> Result<Option<u32>, FatError> {
    let value = (raw % FAT_VALUE_RANGE) as u32;
    if value >= END_OF_CHAIN {
        Ok(None)
    } else if value == BAD_CLUSTER {
        Err(FatError::BadCluster)
    } else if 2 <= value <= LAST_CLUSTER {
        Ok(Some(value))
    } else {
        Err(FatError::FreeClusterInChain)
    }
}

/// The successor of `cluster` on a medium holding `contents`, when the
/// medium does not fault.
pub open spec fn next_in_chain(contents: Seq<u8>, boot: BootSector, cluster: u32) -> Result<
    Option<u32>,
    FatError,
> {
    match read_result(contents, fat_entry_offset(boot, cluster), FAT_ENTRY_SIZE as int) {
        Ok(entry) => classify(le_u32(entry, 0)),
        Err(e) => Err(FatError::Io(e)),
    }
}

/// Whether `res` reports a fault of the medium rather than what it holds.
pub open spec fn is_fat_fault(res: Result<Option<u32>, FatError>) -> bool {
    res == Err::<Option<u32>, FatError>(FatError::Io(BlockDeviceError::IoError))
}

/// Classifies the 32 bits of a FAT entry.
pub fn classify_entry(raw: u32) -> (res: Result<Option<u32>, FatError>)
    ensures
        res == classify(raw),
{
    let value = raw & 0x0FFF_FFFF;
    assert(value == raw % 0x1000_0000) by (bit_vector)
        requires
            value == raw & 0x0FFF_FFFF,
    ;
    if value >= END_OF_CHAIN {
        Ok(None)
    } else if value == BAD_CLUSTER {
        Err(FatError::BadCluster)
    } else if value < 2 || value > LAST_CLUSTER {
        Err(FatError::FreeClusterInChain)
    } else {
        Ok(Some(value))
    }
}

/// A view of the first FAT copy of a volume.
pub struct Fat<'a, D: BlockDevice> {
    device: &'a D,
    boot: &'a BootSector,
}

impl<'a, D: BlockDevice> Fat<'a, D> {
    /// The bytes of the medium the table is read from.
    pub closed spec fn contents(&self) -> Seq<u8> {
        self.device.contents()
    }

    /// Whether that medium never faults.
    pub closed spec fn fault_free(&self) -> bool {
        self.device.fault_free()
    }

    /// The geometry the table is located by.
    pub closed spec fn boot(&self) -> BootSector {
        *self.boot
    }

    /// The successor of `cluster` as the medium records it.
    pub open spec fn spec_next(&self, cluster: u32) -> Result<Option<u32>, FatError> {
        next_in_chain(self.contents(), self.boot(), cluster)
    }

    /// The table that `boot` locates on `device`.
    pub fn new(device: &'a D, boot: &'a BootSector) -> (fat: Self)
        ensures
            fat.contents() == device.contents(),
            fat.fault_free() == device.fault_free(),
            fat.boot() == *boot,
    {
        Fat { device, boot }
    }

    /// Byte offset of the entry of `cluster`.
    pub fn entry_offset(&self, cluster: u32) -> (offset: u64)
        ensures
            offset == fat_entry_offset(self.boot(), cluster),
    {
        let reserved = self.boot.reserved_sectors as u64;
        let sector_size = self.boot.bytes_per_sector as u64;
        assert(reserved * sector_size <= 0xFFFF * 0xFFFF) by (nonlinear_arith)
            requires
                reserved <= 0xFFFF,
                sector_size <= 0xFFFF,
        ;
        reserved * sector_size + cluster as u64 * FAT_ENTRY_SIZE
    }

    /// Looks up the cluster that follows `current` in its chain; `None`
    /// is the end of the chain.
    ///
    /// The result is the one `spec_next` gives, unless the medium faulted
    /// during the read.
    pub fn next_cluster(&self, current: u32) -> (res: Result<Option<u32>, FatError>)
        ensures
            res == self.spec_next(current) || (!self.fault_free() && is_fat_fault(res)),
    {
        let offset = self.entry_offset(current);
        let mut entry = [0u8; 4];
        match self.device.read_at(offset, &mut entry) {
            Ok(()) => classify_entry(read_le_u32(&entry, 0)),
            Err(e) => Err(FatError::from(e)),
        }
    }
}

} // verus!
