//! Reading cluster data: one cluster, or a whole chain.

use crate::device::block_device::{read_result, BlockDevice, BlockDeviceError};
use crate::fs::boot_sector::BootSector;
use crate::fs::fat::{Fat, FatError};
use vstd::prelude::*;

verus! {

/// Reasons cluster data cannot be read.
#[derive(Debug, Clone, Copy, PartialEq, Eq)]
pub enum ClusterError {
    /// The data could not be read from the storage source.
    Io(BlockDeviceError),
    /// The chain could not be followed.
    Fat(FatError),
    /// The cluster number is below 2, or the buffer is not one cluster long.
    InvalidCluster,
    /// The chain holds more clusters than the FAT has entries, so it loops.
    ChainTooLong,
}

impl From<BlockDeviceError> for ClusterError {
    fn from(e: BlockDeviceError) -> (err: Self) {
        ClusterError::Io(e)
    }
}

impl vstd::std_specs::convert::FromSpecImpl<BlockDeviceError> for ClusterError {
    open spec fn obeys_from_spec() -> bool {
        true
    }

    open spec fn from_spec(e: BlockDeviceError) -> Self {
        ClusterError::Io(e)
    }
}

impl From<FatError> for ClusterError {
    fn from(e: FatError) -> (err: Self) {
        ClusterError::Fat(e)
    }
}

impl vstd::std_specs::convert::FromSpecImpl<FatError> for ClusterError {
    open spec fn obeys_from_spec() -> bool {
        true
    }

    open spec fn from_spec(e: FatError) -> Self {
        ClusterError::Fat(e)
    }
}

/// Size in bytes of one cluster.
pub open spec fn cluster_size(boot: BootSector) -> int {
    boot.bytes_per_sector * boot.sectors_per_cluster
}

/// Byte offset at which the data region, and with it cluster 2, begins.
pub open spec fn data_region_offset(boot: BootSector) -> int {
    (boot.reserved_sectors + boot.fat_count * boot.sectors_per_fat) * boot.bytes_per_sector
}

/// Byte offset of the first byte of `cluster`, which is at least 2.
pub open spec fn cluster_offset_of(boot: BootSector, cluster: u32) -> int
    recommends
        cluster >= 2,
{
    (boot.reserved_sectors + boot.fat_count * boot.sectors_per_fat + (cluster - 2)
        * boot.sectors_per_cluster) * boot.bytes_per_sector
}

/// Number of entries that one FAT copy has room for. A chain that does not
/// loop cannot hold more clusters than that.
pub open spec fn max_chain_length(boot: BootSector) -> nat {
    ((boot.sectors_per_fat * boot.bytes_per_sector) / 4) as nat
}

/// The bytes of `cluster` on a medium holding `contents`, when the medium
/// does not fault.
pub open spec fn cluster_bytes(contents: Seq<u8>, boot: BootSector, cluster: u32) -> Result<
    Seq<u8>,
    ClusterError,
> {
    if cluster < 2 {
        Err(ClusterError::InvalidCluster)
    } else {
        match read_result(contents, cluster_offset_of(boot, cluster), cluster_size(boot)) {
            Ok(bytes) => Ok(bytes),
            Err(e) => Err(ClusterError::Io(e)),
        }
    }
}

/// Whether `e` reports a fault of the medium rather than what it holds.
pub open spec fn is_cluster_fault(e: ClusterError) -> bool {
    e == ClusterError::Io(BlockDeviceError::IoError) || e == ClusterError::Fat(
        FatError::Io(BlockDeviceError::IoError),
    )
}

/// Reads clusters by number, through the geometry of a volume and its FAT.
pub struct ClusterReader<'a, D: BlockDevice> {
    device: &'a D,
    boot: &'a BootSector,
    fat: &'a Fat<'a, D>,
}

impl<'a, D: BlockDevice> ClusterReader<'a, D> {
    /// The bytes of the medium that cluster data is read from.
    pub closed spec fn contents(&self) -> Seq<u8> {
        self.device.contents()
    }

    /// The geometry that locates the data region.
    pub closed spec fn boot(&self) -> BootSector {
        *self.boot
    }

    /// The table that chains are followed through.
    pub closed spec fn fat(&self) -> Fat<'a, D> {
        *self.fat
    }

    /// Whether neither the data medium nor the table's medium ever faults.
    pub closed spec fn fault_free(&self) -> bool {
        self.device.fault_free() && self.fat.fault_free()
    }

    /// The bytes of `cluster` as the medium holds them.
    pub open spec fn spec_cluster(&self, cluster: u32) -> Result<Seq<u8>, ClusterError> {
        cluster_bytes(self.contents(), self.boot(), cluster)
    }

    /// The successor of `cluster` as the table records it.
    pub open spec fn spec_next(&self, cluster: u32) -> Result<Option<u32>, ClusterError> {
        match self.fat().spec_next(cluster) {
            Ok(next) => Ok(next),
            Err(e) => Err(ClusterError::Fat(e)),
        }
    }

    /// What reading the chain that starts at `start` delivers when at most
    /// `limit` clusters may be read: the bytes of the clusters read, in chain
    /// order, and how the walk ended. A cluster is read before the table is
    /// asked for its successor, and its bytes are delivered even when that
    /// lookup fails.
    pub open spec fn spec_chain(&self, start: u32, limit: nat) -> (Seq<u8>, Result<
        (),
        ClusterError,
    >)
        decreases limit,
    {
        if limit == 0 {
            (Seq::empty(), Err(ClusterError::ChainTooLong))
        } else {
            match self.spec_cluster(start) {
                Err(e) => (Seq::empty(), Err(e)),
                Ok(bytes) => match self.spec_next(start) {
                    Err(e) => (bytes, Err(e)),
                    Ok(None) => (bytes, Ok(())),
                    Ok(Some(next)) => {
                        let (rest, end) = self.spec_chain(next, (limit - 1) as nat);
                        (bytes + rest, end)
                    },
                },
            }
        }
    }

    /// Whether `clusters` is a whole chain as the table records it: each of
    /// its clusters is followed by the next, and the last ends the chain.
    pub open spec fn is_chain(&self, clusters: Seq<u32>) -> bool {
        &&& clusters.len() > 0
        &&& forall|i: int|
            0 <= i < clusters.len() - 1 ==> self.spec_next(#[trigger] clusters[i]) == Ok::<
                Option<u32>,
                ClusterError,
            >(Some(clusters[i + 1]))
        &&& self.spec_next(clusters.last()) == Ok::<Option<u32>, ClusterError>(None)
    }

    /// Whether every cluster of `clusters` can be read.
    pub open spec fn all_readable(&self, clusters: Seq<u32>) -> bool {
        forall|i: int| 0 <= i < clusters.len() ==> self.spec_cluster(#[trigger] clusters[i]) is Ok
    }

    /// The bytes of the clusters of `clusters`, one cluster after another.
    pub open spec fn spec_clusters(&self, clusters: Seq<u32>) -> Seq<u8>
        decreases clusters.len(),
    {
        if clusters.len() == 0 {
            Seq::empty()
        } else {
            self.spec_cluster(clusters[0])->Ok_0 + self.spec_clusters(clusters.drop_first())
        }
    }

    /// Whether `stored` is what the clusters of `clusters` hold, each taking
    /// the next cluster-sized piece of it.
    pub open spec fn is_stored_along(&self, clusters: Seq<u32>, stored: Seq<u8>) -> bool {
        let size = cluster_size(self.boot());
        &&& stored.len() == clusters.len() * size
        &&& forall|i: int|
            0 <= i < clusters.len() ==> self.spec_cluster(#[trigger] clusters[i]) == Ok::<
                Seq<u8>,
                ClusterError,
            >(stored.subrange(i * size, (i + 1) * size))
    }

    /// Clusters that were filled piece by piece hold, taken together, what
    /// was stored.
    pub proof fn clusters_hold_what_was_stored(&self, clusters: Seq<u32>, stored: Seq<u8>)
        requires
            self.is_stored_along(clusters, stored),
        ensures
            self.all_readable(clusters),
            self.spec_clusters(clusters) == stored,
        decreases clusters.len(),
    {
        let size = cluster_size(self.boot());
        assert(size >= 0 && 0 * size == 0 && (0 + 1) * size == size) by (nonlinear_arith)
            requires
                size == self.boot().bytes_per_sector * self.boot().sectors_per_cluster,
        ;
        if clusters.len() > 0 {
            let rest = clusters.drop_first();
            let tail = stored.skip(size);
            assert(self.spec_cluster(clusters[0]) == Ok::<Seq<u8>, ClusterError>(
                stored.subrange(0 * size, (0 + 1) * size),
            ));
            assert(clusters.len() * size == size + rest.len() * size) by (nonlinear_arith)
                requires
                    clusters.len() == rest.len() + 1,
            ;
            assert(rest.len() * size >= 0) by (nonlinear_arith)
                requires
                    size >= 0,
            ;
            assert forall|i: int| 0 <= i < rest.len() implies self.spec_cluster(
                #[trigger] rest[i],
            ) == Ok::<Seq<u8>, ClusterError>(tail.subrange(i * size, (i + 1) * size)) by {
                assert(rest[i] == clusters[i + 1]);
                assert((i + 1) * size == i * size + size && (i + 2) * size == (i + 1) * size
                    + size && 0 <= i * size && (i + 2) * size <= clusters.len() * size)
                    by (nonlinear_arith)
                    requires
                        0 <= i,
                        i + 2 <= clusters.len(),
                        size >= 0,
                ;
                assert(tail.subrange(i * size, (i + 1) * size) == stored.subrange(
                    (i + 1) * size,
                    (i + 1 + 1) * size,
                ));
            }
            self.clusters_hold_what_was_stored(rest, tail);
            assert(stored.subrange(0, size) + tail == stored);
            assert forall|i: int| 0 <= i < clusters.len() implies self.spec_cluster(
                #[trigger] clusters[i],
            ) is Ok by {}
        } else {
            assert(stored == Seq::<u8>::empty());
        }
    }

    /// Reading a chain delivers the bytes of its clusters, in chain order,
    /// whole and with nothing added or left out.
    pub proof fn chain_reads_its_clusters(&self, clusters: Seq<u32>, limit: nat)
        requires
            self.is_chain(clusters),
            self.all_readable(clusters),
            clusters.len() <= limit,
        ensures
            self.spec_chain(clusters[0], limit) == (
                self.spec_clusters(clusters),
                Ok::<(), ClusterError>(()),
            ),
            self.spec_clusters(clusters).len() == clusters.len() * cluster_size(self.boot()),
        decreases clusters.len(),
    {
        let size = cluster_size(self.boot());
        let rest = clusters.drop_first();
        assert(self.spec_cluster(clusters[0]) is Ok);
        if clusters.len() == 1 {
            assert(clusters.last() == clusters[0]);
            assert(self.spec_clusters(rest) == Seq::<u8>::empty());
            assert(self.spec_cluster(clusters[0])->Ok_0 + Seq::<u8>::empty()
                == self.spec_cluster(clusters[0])->Ok_0);
        } else {
            assert(rest[0] == clusters[1]);
            assert(rest.last() == clusters.last());
            assert forall|i: int| 0 <= i < rest.len() - 1 implies self.spec_next(
                #[trigger] rest[i],
            ) == Ok::<Option<u32>, ClusterError>(Some(rest[i + 1])) by {
                assert(rest[i] == clusters[i + 1]);
            }
            assert forall|i: int| 0 <= i < rest.len() implies self.spec_cluster(
                #[trigger] rest[i],
            ) is Ok by {
                assert(rest[i] == clusters[i + 1]);
            }
            self.chain_reads_its_clusters(rest, (limit - 1) as nat);
            assert(clusters.len() * size == size + rest.len() * size) by (nonlinear_arith)
                requires
                    clusters.len() == rest.len() + 1,
            ;
        }
    }

    /// A reader of the clusters that `boot` locates on `device`, chained as
    /// `fat` records.
    pub fn new(device: &'a D, boot: &'a BootSector, fat: &'a Fat<'a, D>) -> (reader: Self)
        ensures
            reader.contents() == device.contents(),
            reader.boot() == *boot,
            reader.fat() == *fat,
            reader.fault_free() == (device.fault_free() && fat.fault_free()),
    {
        ClusterReader { device, boot, fat }
    }

    /// Size in bytes of one cluster of the volume.
    pub fn cluster_len(&self) -> (len: usize)
        ensures
            len == cluster_size(self.boot()),
    {
        let sector = self.boot.bytes_per_sector as usize;
        let count = self.boot.sectors_per_cluster as usize;
        assert(sector * count <= 0xFFFF * 0xFF) by (nonlinear_arith)
            requires
                sector <= 0xFFFF,
                count <= 0xFF,
        ;
        sector * count
    }

    /// Byte offset, from the start of the medium, of the first byte of
    /// `cluster`. Clusters 0 and 1 do not exist.
    pub fn cluster_offset(&self, cluster: u32) -> (res: Result<u64, ClusterError>)
        ensures
            cluster < 2 ==> res == Err::<u64, ClusterError>(ClusterError::InvalidCluster),
            cluster >= 2 ==> res == Ok::<u64, ClusterError>(
                cluster_offset_of(self.boot(), cluster) as u64,
            ) && cluster_offset_of(self.boot(), cluster) <= u64::MAX,
    {
        if cluster < 2 {
            return Err(ClusterError::InvalidCluster);
        }
        let bytes_per_sector = self.boot.bytes_per_sector as u64;
        let sectors_per_cluster = self.boot.sectors_per_cluster as u64;
        let fat_count = self.boot.fat_count as u64;
        let sectors_per_fat = self.boot.sectors_per_fat as u64;
        let cluster_index = cluster as u64 - 2;
        assert(fat_count * sectors_per_fat <= 0xFF * 0xFFFF_FFFF) by (nonlinear_arith)
            requires
                fat_count <= 0xFF,
                sectors_per_fat <= 0xFFFF_FFFF,
        ;
        assert(cluster_index * sectors_per_cluster <= 0xFFFF_FFFF * 0xFF) by (nonlinear_arith)
            requires
                cluster_index <= 0xFFFF_FFFF,
                sectors_per_cluster <= 0xFF,
        ;
        let fat_region_size = fat_count * sectors_per_fat;
        let data_region_sector = self.boot.reserved_sectors as u64 + fat_region_size;
        let sector = data_region_sector + cluster_index * sectors_per_cluster;
        assert(sector * bytes_per_sector <= 0x200_0000_0000 * 0xFFFF) by (nonlinear_arith)
            requires
                sector <= 0x200_0000_0000,
                bytes_per_sector <= 0xFFFF,
        ;
        Ok(sector * bytes_per_sector)
    }

    /// Reads `cluster` into `buf`, which must be exactly one cluster long.
    ///
    /// The result is the one `spec_cluster` gives, unless the medium faulted
    /// during the read.
    pub fn read_cluster(&self, cluster: u32, buf: &mut [u8]) -> (res: Result<(), ClusterError>)
        ensures
            final(buf)@.len() == old(buf)@.len(),
            old(buf)@.len() != cluster_size(self.boot()) ==> res == Err::<(), ClusterError>(
                ClusterError::InvalidCluster,
            ),
            old(buf)@.len() == cluster_size(self.boot()) ==> match self.spec_cluster(cluster) {
                Ok(bytes) => (res is Ok && final(buf)@ == bytes) || (!self.fault_free() && res
                    == Err::<(), ClusterError>(ClusterError::Io(BlockDeviceError::IoError))),
                Err(e) => res == Err::<(), ClusterError>(e) || (!self.fault_free() && cluster >= 2
                    && res == Err::<(), ClusterError>(
                    ClusterError::Io(BlockDeviceError::IoError),
                )),
            },
    {
        if buf.len() != self.cluster_len() {
            return Err(ClusterError::InvalidCluster);
        }
        let offset = match self.cluster_offset(cluster) {
            Ok(offset) => offset,
            Err(e) => { return Err(e); },
        };
        match self.device.read_at(offset, buf) {
            Ok(()) => Ok(()),
            Err(e) => Err(ClusterError::from(e)),
        }
    }

    /// Looks up the cluster that follows `cluster` in its chain; `None` is
    /// the end of the chain.
    ///
    /// The result is the one `spec_next` gives, unless the medium faulted
    /// during the read.
    pub fn next_cluster(&self, cluster: u32) -> (res: Result<Option<u32>, ClusterError>)
        ensures
            res == self.spec_next(cluster) || (!self.fault_free() && res == Err::<
                Option<u32>,
                ClusterError,
            >(ClusterError::Fat(FatError::Io(BlockDeviceError::IoError)))),
    {
        match self.fat.next_cluster(cluster) {
            Ok(next) => Ok(next),
            Err(e) => Err(ClusterError::from(e)),
        }
    }

    /// The most clusters a chain of this volume is followed for.
    pub fn chain_limit(&self) -> (limit: u64)
        ensures
            limit == max_chain_length(self.boot()),
    {
        let sectors_per_fat = self.boot.sectors_per_fat as u64;
        let bytes_per_sector = self.boot.bytes_per_sector as u64;
        assert(sectors_per_fat * bytes_per_sector <= 0xFFFF_FFFF * 0xFFFF) by (nonlinear_arith)
            requires
                sectors_per_fat <= 0xFFFF_FFFF,
                bytes_per_sector <= 0xFFFF,
        ;
        sectors_per_fat * bytes_per_sector / 4
    }

    /// Appends to `out` the bytes of every cluster of the chain that starts
    /// at `start_cluster`, in chain order, and stops at the end of the chain.
    ///
    /// A chain is followed for at most `max_chain_length` clusters; one that
    /// goes on after that is given up with `ChainTooLong`. When the walk
    /// fails, `out` keeps the clusters read until then.
    ///
    /// The result, and what is appended, are as `spec_chain` gives them,
    /// unless the medium faulted during a read; what is appended is then the
    /// part of those bytes that was read before the fault. No read is made,
    /// and so no fault met, when `start_cluster` is below 2 or the limit is
    /// zero.
    pub fn read_cluster_chain(&self, start_cluster: u32, out: &mut Vec<u8>) -> (res: Result<
        (),
        ClusterError,
    >)
        ensures
            ({
                let (bytes, end) = self.spec_chain(start_cluster, max_chain_length(self.boot()));
                let appended = final(out)@.len() - old(out)@.len();
                ||| res == end && final(out)@ == old(out)@ + bytes
                ||| {
                    &&& !self.fault_free()
                    &&& start_cluster >= 2 && max_chain_length(self.boot()) > 0
                    &&& res matches Err(e) && is_cluster_fault(e)
                    &&& 0 <= appended <= bytes.len()
                    &&& final(out)@ == old(out)@ + bytes.take(appended)
                }
            }),
    {
        let cluster_len = self.cluster_len();
        let limit = self.chain_limit();
        let mut buf = vec![0u8; cluster_len];
        let mut current = start_cluster;
        let mut count: u64 = 0;
        let ghost mut read: Seq<u8> = Seq::empty();
        loop
            invariant
                count <= limit == max_chain_length(self.boot()),
                count == 0 ==> current == start_cluster,
                count > 0 ==> start_cluster >= 2,
                buf@.len() == cluster_len == cluster_size(self.boot()),
                out@ == old(out)@ + read,
                ({
                    let (rest, end) = self.spec_chain(current, (limit - count) as nat);
                    self.spec_chain(start_cluster, limit as nat) == (read + rest, end)
                }),
            decreases limit - count,
        {
            if count == limit {
                return Err(ClusterError::ChainTooLong);
            }
            match self.read_cluster(current, buf.as_mut_slice()) {
                Ok(()) => {},
                Err(e) => {
                    return Err(e);
                },
            }
            out.extend_from_slice(buf.as_slice());
            proof {
                read = read + buf@;
            }
            match self.next_cluster(current) {
                Err(e) => {
                    return Err(e);
                },
                Ok(None) => {
                    return Ok(());
                },
                Ok(Some(next)) => {
                    current = next;
                    count = count + 1;
                },
            }
        }
    }
}

/// Cluster 2 begins where the data region begins.
pub proof fn first_cluster_starts_data_region(boot: BootSector)
    ensures
        cluster_offset_of(boot, 2) == data_region_offset(boot),
{
}

/// Clusters lie one after another: from a cluster to a later one the offset
/// grows by one cluster size for each cluster in between. On a valid
/// geometry a cluster holds at least 512 bytes, so the offset is strictly
/// increasing in the cluster number.
pub proof fn cluster_offset_increases(boot: BootSector, a: u32, b: u32)
    requires
        boot.is_valid(),
        2 <= a < b,
    ensures
        cluster_offset_of(boot, b) == cluster_offset_of(boot, a) + (b - a) * cluster_size(boot),
        cluster_size(boot) >= 512,
        cluster_offset_of(boot, a) < cluster_offset_of(boot, b),
{
    let sector = boot.bytes_per_sector as int;
    let per_cluster = boot.sectors_per_cluster as int;
    let base = boot.reserved_sectors + boot.fat_count * boot.sectors_per_fat;
    assert(cluster_size(boot) >= 512) by (nonlinear_arith)
        requires
            cluster_size(boot) == sector * per_cluster,
            sector >= 512,
            per_cluster >= 1,
    ;
    assert((base + (b - 2) * per_cluster) * sector == (base + (a - 2) * per_cluster) * sector + (b
        - a) * (sector * per_cluster)) by (nonlinear_arith);
    assert((b - a) * cluster_size(boot) >= cluster_size(boot)) by (nonlinear_arith)
        requires
            b - a >= 1,
            cluster_size(boot) >= 0,
    ;
}

} // verus!
