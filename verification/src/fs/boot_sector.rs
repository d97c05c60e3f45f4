//! Reading and validating the FAT32 boot sector.

use crate::device::block_device::{read_result, BlockDevice, BlockDeviceError};
use crate::fs::endian::{
    le_u16, le_u16_of_stored, le_u32, le_u32_of_stored, read_le_u16, read_le_u32, stores_u16,
    stores_u32,
};
use vstd::prelude::*;

verus! {

/// Size in bytes of the boot sector.
pub const BOOT_SECTOR_SIZE: usize = 512;

/// Geometry of a FAT32 volume, as recorded in its boot sector.
#[derive(Debug, Clone, Copy, PartialEq, Eq)]
pub struct BootSector {
    /// Size of a sector in bytes.
    pub bytes_per_sector: u16,
    /// Size of a cluster in sectors.
    pub sectors_per_cluster: u8,
    /// Number of sectors before the first FAT copy.
    pub reserved_sectors: u16,
    /// Number of FAT copies.
    pub fat_count: u8,
    /// Size of one FAT copy in sectors.
    pub sectors_per_fat: u32,
    /// The cluster at which the root directory starts.
    pub root_cluster: u32,
}

/// Reasons a boot sector is rejected.
#[derive(Debug, Clone, Copy, PartialEq, Eq)]
pub enum BootSectorError {
    /// The sector could not be read from the storage source.
    Io(BlockDeviceError),
    /// Bytes 510 and 511 are not `0x55 0xAA`.
    InvalidSignature,
    /// The sector size is not 512, 1024, 2048 or 4096.
    InvalidBytesPerSector,
    /// The cluster size in sectors is zero or not a power of two.
    InvalidSectorsPerCluster,
    /// The 16-bit sectors-per-FAT field is in use, as on FAT12 and FAT16.
    NotFAT32,
}

impl From<BlockDeviceError> for BootSectorError {
    fn from(e: BlockDeviceError) -> (err: Self) {
        BootSectorError::Io(e)
    }
}

impl vstd::std_specs::convert::FromSpecImpl<BlockDeviceError> for BootSectorError {
    open spec fn obeys_from_spec() -> bool {
        true
    }

    open spec fn from_spec(e: BlockDeviceError) -> Self {
        BootSectorError::Io(e)
    }
}

/// Whether `n` is a sector size that FAT32 allows.
pub open spec fn is_sector_size(n: u16) -> bool {
    n == 512 || n == 1024 || n == 2048 || n == 4096
}

/// Whether `n` is one of 1, 2, 4, ..., 128.
pub open spec fn is_power_of_two(n: u8) -> bool {
    n == 1 || n == 2 || n == 4 || n == 8 || n == 16 || n == 32 || n == 64 || n == 128
}

/// Tells whether exactly one bit of `n` is set.
fn power_of_two(n: u8) -> (yes: bool)
    ensures
        yes == is_power_of_two(n),
{
    if n == 0 {
        return false;
    }
    let below: u8 = n - 1;
    assert((n & below == 0) == is_power_of_two(n)) by (bit_vector)
        requires
            n != 0,
            below == n - 1,
    ;
    n & below == 0
}

impl BootSector {
    /// The geometry is one that `parse` accepts: a legal sector size and a
    /// cluster of 1, 2, 4, ..., 128 sectors.
    pub open spec fn is_valid(&self) -> bool {
        &&& is_sector_size(self.bytes_per_sector)
        &&& is_power_of_two(self.sectors_per_cluster)
    }

    /// The record encoded by the fields of `sector`, whatever their values.
    pub open spec fn decode(sector: Seq<u8>) -> BootSector {
        BootSector {
            bytes_per_sector: le_u16(sector, 11),
            sectors_per_cluster: sector[13],
            reserved_sectors: le_u16(sector, 14),
            fat_count: sector[16],
            sectors_per_fat: le_u32(sector, 36),
            root_cluster: le_u32(sector, 44),
        }
    }

    /// Whether `sector` is a first sector that carries the signature, the
    /// fields of `self` at their offsets, and a zero 16-bit sectors-per-FAT
    /// field.
    pub open spec fn is_encoded_in(&self, sector: Seq<u8>) -> bool {
        &&& sector.len() == BOOT_SECTOR_SIZE
        &&& sector[510] == 0x55 && sector[511] == 0xAA
        &&& stores_u16(sector, 11, self.bytes_per_sector)
        &&& sector[13] == self.sectors_per_cluster
        &&& stores_u16(sector, 14, self.reserved_sectors)
        &&& sector[16] == self.fat_count
        &&& stores_u16(sector, 22, 0)
        &&& stores_u32(sector, 36, self.sectors_per_fat)
        &&& stores_u32(sector, 44, self.root_cluster)
    }

    /// What a 512-byte first sector parses to. The checks are made in the
    /// order given here and the first that fails names the error.
    pub open spec fn spec_parse(sector: Seq<u8>) -> Result<BootSector, BootSectorError>
        recommends
            sector.len() == BOOT_SECTOR_SIZE,
    {
        if sector[510] != 0x55 || sector[511] != 0xAA {
            Err(BootSectorError::InvalidSignature)
        } else if !is_sector_size(le_u16(sector, 11)) {
            Err(BootSectorError::InvalidBytesPerSector)
        } else if !is_power_of_two(sector[13]) {
            Err(BootSectorError::InvalidSectorsPerCluster)
        } else if le_u16(sector, 22) != 0 {
            Err(BootSectorError::NotFAT32)
        } else {
            Ok(BootSector::decode(sector))
        }
    }

    /// What reading the boot sector of a medium holding `contents` gives
    /// when the medium does not fault.
    pub open spec fn spec_read(contents: Seq<u8>) -> Result<BootSector, BootSectorError> {
        match read_result(contents, 0, BOOT_SECTOR_SIZE as int) {
            Ok(sector) => BootSector::spec_parse(sector),
            Err(e) => Err(BootSectorError::Io(e)),
        }
    }

    /// Validates a first sector already in memory and extracts the geometry.
    pub fn parse(sector: &[u8; 512]) -> (res: Result<BootSector, BootSectorError>)
        ensures
            res == BootSector::spec_parse(sector@),
            res matches Ok(boot) ==> boot.is_valid(),
    {
        if sector[510] != 0x55 || sector[511] != 0xAA {
            return Err(BootSectorError::InvalidSignature);
        }
        let bytes_per_sector = read_le_u16(sector, 11);
        if !(bytes_per_sector == 512 || bytes_per_sector == 1024 || bytes_per_sector == 2048
            || bytes_per_sector == 4096) {
            return Err(BootSectorError::InvalidBytesPerSector);
        }
        let sectors_per_cluster = sector[13];
        if !power_of_two(sectors_per_cluster) {
            return Err(BootSectorError::InvalidSectorsPerCluster);
        }
        let reserved_sectors = read_le_u16(sector, 14);
        let fat_count = sector[16];
        let sectors_per_fat_16 = read_le_u16(sector, 22);
        if sectors_per_fat_16 != 0 {
            return Err(BootSectorError::NotFAT32);
        }
        let sectors_per_fat = read_le_u32(sector, 36);
        let root_cluster = read_le_u32(sector, 44);
        Ok(
            BootSector {
                bytes_per_sector,
                sectors_per_cluster,
                reserved_sectors,
                fat_count,
                sectors_per_fat,
                root_cluster,
            },
        )
    }

    /// Reads the first 512 bytes of `device` and parses them.
    ///
    /// The result is the one `spec_read` gives for the medium's contents,
    /// unless the medium faulted during the read.
    pub fn read<D: BlockDevice>(device: &D) -> (res: Result<BootSector, BootSectorError>)
        ensures
            ({
                ||| res == BootSector::spec_read(device.contents())
                ||| !device.fault_free() && res == Err::<BootSector, BootSectorError>(
                    BootSectorError::Io(BlockDeviceError::IoError),
                )
            }),
            res matches Ok(boot) ==> boot.is_valid(),
    {
        let mut sector = [0u8; 512];
        match device.read_at(0, &mut sector) {
            Ok(()) => BootSector::parse(&sector),
            Err(e) => Err(BootSectorError::from(e)),
        }
    }
}

/// A first sector that encodes a valid geometry parses to exactly that
/// geometry.
pub proof fn parse_recovers_geometry(sector: Seq<u8>, boot: BootSector)
    requires
        boot.is_valid(),
        boot.is_encoded_in(sector),
    ensures
        BootSector::spec_parse(sector) == Ok::<BootSector, BootSectorError>(boot),
{
    le_u16_of_stored(sector, 11, boot.bytes_per_sector);
    le_u16_of_stored(sector, 14, boot.reserved_sectors);
    le_u16_of_stored(sector, 22, 0);
    le_u32_of_stored(sector, 36, boot.sectors_per_fat);
    le_u32_of_stored(sector, 44, boot.root_cluster);
}

/// A sector parses to a geometry exactly when it carries the signature, a
/// legal sector size, a power-of-two cluster size and a zero 16-bit
/// sectors-per-FAT field; the geometry is then the one its fields decode to.
pub proof fn parse_accepts_exactly(sector: Seq<u8>)
    ensures
        BootSector::spec_parse(sector) is Ok <==> {
            &&& sector[510] == 0x55 && sector[511] == 0xAA
            &&& is_sector_size(le_u16(sector, 11))
            &&& is_power_of_two(sector[13])
            &&& le_u16(sector, 22) == 0
        },
        BootSector::spec_parse(sector) matches Ok(boot) ==> boot == BootSector::decode(sector)
            && boot.is_valid(),
{
}

/// Changing a signature byte alone turns any first sector into one that is
/// rejected with `InvalidSignature`, and changes none of the fields that the
/// sector encodes.
pub proof fn signature_is_checked_alone(sector: Seq<u8>, at: int, value: u8)
    requires
        sector.len() == BOOT_SECTOR_SIZE,
        (at == 510 && value != 0x55) || (at == 511 && value != 0xAA),
    ensures
        BootSector::spec_parse(sector.update(at, value)) == Err::<BootSector, BootSectorError>(
            BootSectorError::InvalidSignature,
        ),
        BootSector::decode(sector.update(at, value)) == BootSector::decode(sector),
{
}

} // verus!
