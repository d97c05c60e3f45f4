//! Parsing the 32-byte short-name records of a directory.

use crate::device::block_device::BlockDevice;
use crate::fs::boot_sector::BootSector;
use crate::fs::clusters::{
    cluster_size, is_cluster_fault, max_chain_length, ClusterError, ClusterReader,
};
use crate::fs::endian::{le_u16, le_u32, read_le_u16, read_le_u32};
use vstd::prelude::*;

verus! {

/// Size in bytes of one directory record.
pub const DIR_ENTRY_SIZE: usize = 32;

/// First byte of the record that ends a listing.
pub const END_OF_DIRECTORY: u8 = 0x00;

/// First byte of a record whose entry was deleted.
pub const DELETED_ENTRY: u8 = 0xE5;

/// Attribute bit of a volume label; long-name records carry it too.
pub const ATTR_VOLUME_ID: u8 = 0x08;

/// Attribute bit of a directory.
pub const ATTR_DIRECTORY: u8 = 0x10;

/// What a directory entry names.
#[derive(Debug, Clone, Copy, PartialEq, Eq, Structural)]
pub enum EntryType {
    File,
    Directory,
}

/// One entry of a directory listing.
#[derive(Debug, Clone, PartialEq, Eq)]
pub struct DirectoryEntry {
    /// The short name as stored, `NAME` or `NAME.EXT`, without padding.
    pub name: Vec<u8>,
    pub entry_type: EntryType,
    /// The first cluster of the entry's data: the 16-bit word at offset 26.
    pub start_cluster: u32,
    /// Length in bytes of a file's data.
    pub size: u32,
}

/// The mathematical value of a `DirectoryEntry`.
pub struct EntryView {
    pub name: Seq<u8>,
    pub entry_type: EntryType,
    pub start_cluster: u32,
    pub size: u32,
}

impl View for DirectoryEntry {
    type V = EntryView;

    open spec fn view(&self) -> EntryView {
        EntryView {
            name: self.name@,
            entry_type: self.entry_type,
            start_cluster: self.start_cluster,
            size: self.size,
        }
    }
}

/// The values of a sequence of entries, in order.
pub open spec fn entry_views(entries: Seq<DirectoryEntry>) -> Seq<EntryView> {
    entries.map_values(|e: DirectoryEntry| e@)
}

/// Whether `b` pads a name field: a space, or a zero byte left by a writer
/// that did not fill the field.
pub open spec fn is_padding(b: u8) -> bool {
    b == 0x20 || b == 0x00
}

/// Length of `field` once its trailing padding is removed.
pub open spec fn trimmed_len(field: Seq<u8>) -> nat
    decreases field.len(),
{
    if field.len() == 0 {
        0
    } else if is_padding(field.last()) {
        trimmed_len(field.drop_last())
    } else {
        field.len()
    }
}

/// `field` without its trailing padding.
pub open spec fn trimmed(field: Seq<u8>) -> Seq<u8> {
    field.take(trimmed_len(field) as int)
}

/// The name a record stores: the base of bytes 0 to 7, then, where the
/// extension of bytes 8 to 10 is not empty, a dot and the extension.
pub open spec fn short_name(record: Seq<u8>) -> Seq<u8> {
    let base = trimmed(record.subrange(0, 8));
    let extension = trimmed(record.subrange(8, 11));
    if extension.len() == 0 {
        base
    } else {
        base + seq![0x2Eu8] + extension
    }
}

/// Whether a record stands for an entry of the listing: it is neither the
/// end marker nor deleted, and is no volume label or long-name record.
pub open spec fn is_listed(record: Seq<u8>) -> bool {
    &&& record[0] != END_OF_DIRECTORY
    &&& record[0] != DELETED_ENTRY
    &&& record[11] & ATTR_VOLUME_ID == 0
}

/// The entry that a 32-byte record encodes.
pub open spec fn decode_entry(record: Seq<u8>) -> EntryView {
    EntryView {
        name: short_name(record),
        entry_type: if record[11] & ATTR_DIRECTORY != 0 {
            EntryType::Directory
        } else {
            EntryType::File
        },
        start_cluster: le_u16(record, 26) as u32,
        size: le_u32(record, 28),
    }
}

/// The entries that the records of `bytes` list, in order: every listed
/// record before the end marker. Bytes after the last whole record are not
/// looked at.
pub open spec fn listing(bytes: Seq<u8>) -> Seq<EntryView>
    decreases bytes.len(),
{
    if bytes.len() < DIR_ENTRY_SIZE || bytes[0] == END_OF_DIRECTORY {
        Seq::empty()
    } else {
        let record = bytes.subrange(0, DIR_ENTRY_SIZE as int);
        let rest = listing(bytes.skip(DIR_ENTRY_SIZE as int));
        if is_listed(record) {
            seq![decode_entry(record)] + rest
        } else {
            rest
        }
    }
}

/// Whether one of the records of `bytes` is the end marker.
pub open spec fn listing_ends(bytes: Seq<u8>) -> bool
    decreases bytes.len(),
{
    if bytes.len() < DIR_ENTRY_SIZE {
        false
    } else if bytes[0] == END_OF_DIRECTORY {
        true
    } else {
        listing_ends(bytes.skip(DIR_ENTRY_SIZE as int))
    }
}

/// Trimming removes the padding at the end of a field and nothing else:
/// every byte from the trimmed length on is padding, and the byte before it,
/// if there is one, is not.
pub proof fn trimmed_len_cuts_padding(field: Seq<u8>)
    ensures
        trimmed_len(field) <= field.len(),
        forall|i: int| trimmed_len(field) <= i < field.len() ==> is_padding(field[i]),
        trimmed_len(field) > 0 ==> !is_padding(field[trimmed_len(field) - 1]),
    decreases field.len(),
{
    if field.len() > 0 && is_padding(field.last()) {
        let shorter = field.drop_last();
        trimmed_len_cuts_padding(shorter);
        assert forall|i: int| trimmed_len(field) <= i < field.len() implies is_padding(
            field[i],
        ) by {
            if i < shorter.len() {
                assert(field[i] == shorter[i]);
            }
        }
    }
}

/// A buffer whose first record is the end marker lists nothing.
pub proof fn end_marker_lists_nothing(bytes: Seq<u8>)
    requires
        bytes.len() >= DIR_ENTRY_SIZE,
        bytes[0] == END_OF_DIRECTORY,
    ensures
        listing(bytes) == Seq::<EntryView>::empty(),
        listing_ends(bytes),
{
}

/// A deleted record contributes nothing: the listing is that of the records
/// after it.
pub proof fn deleted_entry_is_skipped(bytes: Seq<u8>)
    requires
        bytes.len() >= DIR_ENTRY_SIZE,
        bytes[0] == DELETED_ENTRY,
    ensures
        listing(bytes) == listing(bytes.skip(DIR_ENTRY_SIZE as int)),
{
}

/// A record is classified by attribute bit 0x10 alone: a directory when it
/// is set, a file when it is not.
pub proof fn directory_bit_classifies(record: Seq<u8>)
    ensures
        decode_entry(record).entry_type == EntryType::Directory <==> record[11] & 0x10 != 0,
        decode_entry(record).entry_type == EntryType::File <==> record[11] & 0x10 == 0,
{
}

/// Records do not straddle the pieces of a buffer that is cut at a record
/// boundary: the listing of `head + tail` is that of `head` when `head` holds
/// the end marker, and else that of `head` followed by that of `tail`.
pub proof fn listing_of_concat(head: Seq<u8>, tail: Seq<u8>)
    requires
        head.len() % DIR_ENTRY_SIZE as nat == 0,
    ensures
        listing(head + tail) == if listing_ends(head) {
            listing(head)
        } else {
            listing(head) + listing(tail)
        },
        listing_ends(head + tail) == (listing_ends(head) || listing_ends(tail)),
    decreases head.len(),
{
    let whole = head + tail;
    let step = DIR_ENTRY_SIZE as int;
    if head.len() > 0 && head[0] != END_OF_DIRECTORY {
        assert(whole.subrange(0, step) == head.subrange(0, step));
        assert(whole.skip(step) == head.skip(step) + tail);
        listing_of_concat(head.skip(step), tail);
    }
}

/// A cluster of a valid geometry holds a whole number of records.
pub proof fn cluster_holds_whole_records(boot: BootSector)
    requires
        boot.is_valid(),
    ensures
        cluster_size(boot) % DIR_ENTRY_SIZE as int == 0,
{
    let sector = boot.bytes_per_sector as int;
    let count = boot.sectors_per_cluster as int;
    assert((sector * count) % 32 == 0) by (nonlinear_arith)
        requires
            sector == 512 || sector == 1024 || sector == 2048 || sector == 4096,
    ;
}

/// Length of `bytes[start..start + width]` without its trailing padding.
fn trimmed_length(bytes: &[u8], start: usize, width: usize) -> (len: usize)
    requires
        start + width <= bytes.len(),
    ensures
        len == trimmed_len(bytes@.subrange(start as int, start + width)),
        len <= width,
{
    let mut len = width;
    while len > 0 && (bytes[start + len - 1] == 0x20 || bytes[start + len - 1] == 0x00)
        invariant
            len <= width,
            start + width <= bytes.len(),
            trimmed_len(bytes@.subrange(start as int, start + width)) == trimmed_len(
                bytes@.subrange(start as int, start + len),
            ),
        decreases len,
    {
        assert(bytes@.subrange(start as int, start + len).drop_last() == bytes@.subrange(
            start as int,
            start + len - 1,
        ));
        len = len - 1;
    }
    len
}

/// Decodes the record at `bytes[at..at + 32]`.
fn decode_record(bytes: &[u8], at: usize) -> (entry: DirectoryEntry)
    requires
        at + DIR_ENTRY_SIZE <= bytes.len(),
    ensures
        entry@ == decode_entry(bytes@.subrange(at as int, at + DIR_ENTRY_SIZE)),
{
    let ghost record = bytes@.subrange(at as int, at + DIR_ENTRY_SIZE);
    let base_len = trimmed_length(bytes, at, 8);
    let ext_len = trimmed_length(bytes, at + 8, 3);
    assert(record.subrange(0, 8) == bytes@.subrange(at as int, at + 8));
    assert(record.subrange(8, 11) == bytes@.subrange(at + 8, at + 8 + 3));
    let mut name: Vec<u8> = Vec::new();
    name.extend_from_slice(&bytes[at..at + base_len]);
    assert(name@ == trimmed(record.subrange(0, 8)));
    if ext_len > 0 {
        name.push(0x2E);
        name.extend_from_slice(&bytes[at + 8..at + 8 + ext_len]);
        assert(name@ == trimmed(record.subrange(0, 8)) + seq![0x2Eu8] + trimmed(
            record.subrange(8, 11),
        ));
    }
    let entry_type = if bytes[at + 11] & ATTR_DIRECTORY != 0 {
        EntryType::Directory
    } else {
        EntryType::File
    };
    DirectoryEntry {
        name,
        entry_type,
        start_cluster: read_le_u16(bytes, at + 26) as u32,
        size: read_le_u32(bytes, at + 28),
    }
}

/// Appends to `out` the entries that the records of `bytes` list, and tells
/// whether the end marker was met.
fn scan_records(bytes: &[u8], out: &mut Vec<DirectoryEntry>) -> (ended: bool)
    ensures
        entry_views(final(out)@) == entry_views(old(out)@) + listing(bytes@),
        ended == listing_ends(bytes@),
{
    let total = bytes.len();
    let mut at: usize = 0;
    assert(bytes@.skip(0) == bytes@);
    while total - at >= DIR_ENTRY_SIZE
        invariant
            at <= total == bytes@.len(),
            entry_views(out@) + listing(bytes@.skip(at as int)) == entry_views(old(out)@)
                + listing(bytes@),
            listing_ends(bytes@.skip(at as int)) == listing_ends(bytes@),
        decreases total - at,
    {
        let ghost tail = bytes@.skip(at as int);
        assert(tail.skip(DIR_ENTRY_SIZE as int) == bytes@.skip(at + DIR_ENTRY_SIZE));
        assert(tail.subrange(0, DIR_ENTRY_SIZE as int) == bytes@.subrange(
            at as int,
            at + DIR_ENTRY_SIZE,
        ));
        let first = bytes[at];
        if first == END_OF_DIRECTORY {
            return true;
        }
        if first != DELETED_ENTRY && bytes[at + 11] & ATTR_VOLUME_ID == 0 {
            out.push(decode_record(bytes, at));
        }
        at = at + DIR_ENTRY_SIZE;
    }
    false
}

/// Lists directories, reading their records through a `ClusterReader`.
pub struct DirectoryReader<'a, D: BlockDevice> {
    clusters: &'a ClusterReader<'a, D>,
}

impl<'a, D: BlockDevice> DirectoryReader<'a, D> {
    /// The reader that the directory's clusters come through.
    pub closed spec fn clusters(&self) -> ClusterReader<'a, D> {
        *self.clusters
    }

    /// The listing of the directory whose chain starts at `start`, when at
    /// most `limit` clusters may be read. Clusters are taken in chain order;
    /// once one holds the end marker the listing is complete, and the rest of
    /// the chain is neither read nor looked up.
    pub open spec fn spec_read_dir(&self, start: u32, limit: nat) -> Result<
        Seq<EntryView>,
        ClusterError,
    >
        decreases limit,
    {
        if limit == 0 {
            Err(ClusterError::ChainTooLong)
        } else {
            match self.clusters().spec_cluster(start) {
                Err(e) => Err(e),
                Ok(bytes) => if listing_ends(bytes) {
                    Ok(listing(bytes))
                } else {
                    match self.clusters().spec_next(start) {
                        Err(e) => Err(e),
                        Ok(None) => Ok(listing(bytes)),
                        Ok(Some(next)) => match self.spec_read_dir(next, (limit - 1) as nat) {
                            Err(e) => Err(e),
                            Ok(rest) => Ok(listing(bytes) + rest),
                        },
                    }
                },
            }
        }
    }

    /// Listing a directory cluster by cluster gives what parsing the bytes
    /// of its whole chain gives, wherever the whole chain can be read.
    pub proof fn read_dir_lists_whole_chain(&self, start: u32, limit: nat)
        requires
            self.clusters().boot().is_valid(),
            self.clusters().spec_chain(start, limit).1 is Ok,
        ensures
            self.spec_read_dir(start, limit) == Ok::<Seq<EntryView>, ClusterError>(
                listing(self.clusters().spec_chain(start, limit).0),
            ),
        decreases limit,
    {
        let clusters = self.clusters();
        cluster_holds_whole_records(clusters.boot());
        let bytes = clusters.spec_cluster(start)->Ok_0;
        match clusters.spec_next(start) {
            Ok(Some(next)) => {
                let rest = clusters.spec_chain(next, (limit - 1) as nat).0;
                self.read_dir_lists_whole_chain(next, (limit - 1) as nat);
                listing_of_concat(bytes, rest);
            },
            _ => {},
        }
    }

    /// A reader of the directories whose clusters come through `clusters`.
    pub fn new(clusters: &'a ClusterReader<'a, D>) -> (reader: Self)
        ensures
            reader.clusters() == *clusters,
    {
        DirectoryReader { clusters }
    }

    /// Parses the records found in the bytes of a directory's cluster chain.
    pub fn entries(&self, bytes: &[u8]) -> (list: Vec<DirectoryEntry>)
        ensures
            entry_views(list@) == listing(bytes@),
    {
        let mut list: Vec<DirectoryEntry> = Vec::new();
        let _ = scan_records(bytes, &mut list);
        list
    }

    /// Lists the directory whose chain starts at `start_cluster`.
    ///
    /// The result is the one `spec_read_dir` gives, unless the medium
    /// faulted during a read. No read is made, and so no fault met, when
    /// `start_cluster` is below 2 or the limit on the chain's length is zero.
    pub fn read_dir(&self, start_cluster: u32) -> (res: Result<Vec<DirectoryEntry>, ClusterError>)
        ensures
            ({
                let listed = self.spec_read_dir(
                    start_cluster,
                    max_chain_length(self.clusters().boot()),
                );
                ||| match res {
                    Ok(list) => listed == Ok::<Seq<EntryView>, ClusterError>(entry_views(list@)),
                    Err(e) => listed == Err::<Seq<EntryView>, ClusterError>(e),
                }
                ||| {
                    &&& !self.clusters().fault_free()
                    &&& start_cluster >= 2 && max_chain_length(self.clusters().boot()) > 0
                    &&& res matches Err(e) && is_cluster_fault(e)
                }
            }),
            res is Ok ==> start_cluster >= 2 && max_chain_length(self.clusters().boot()) > 0,
    {
        let limit = self.clusters.chain_limit();
        let mut buf = vec![0u8; self.clusters.cluster_len()];
        let mut list: Vec<DirectoryEntry> = Vec::new();
        let mut current = start_cluster;
        let mut count: u64 = 0;
        loop
            invariant
                count <= limit == max_chain_length(self.clusters().boot()),
                count == 0 ==> current == start_cluster,
                count > 0 ==> start_cluster >= 2,
                buf@.len() == cluster_size(self.clusters().boot()),
                match self.spec_read_dir(current, (limit - count) as nat) {
                    Ok(rest) => self.spec_read_dir(start_cluster, limit as nat) == Ok::<
                        Seq<EntryView>,
                        ClusterError,
                    >(entry_views(list@) + rest),
                    Err(e) => self.spec_read_dir(start_cluster, limit as nat) == Err::<
                        Seq<EntryView>,
                        ClusterError,
                    >(e),
                },
            decreases limit - count,
        {
            if count == limit {
                return Err(ClusterError::ChainTooLong);
            }
            match self.clusters.read_cluster(current, buf.as_mut_slice()) {
                Ok(()) => {},
                Err(e) => {
                    return Err(e);
                },
            }
            let ghost before = entry_views(list@);
            let ended = scan_records(buf.as_slice(), &mut list);
            if ended {
                return Ok(list);
            }
            match self.clusters.next_cluster(current) {
                Err(e) => {
                    return Err(e);
                },
                Ok(None) => {
                    return Ok(list);
                },
                Ok(Some(next)) => {
                    proof {
                        let rest = self.spec_read_dir(next, (limit - count - 1) as nat);
                        if rest is Ok {
                            assert(before + (listing(buf@) + rest->Ok_0) == (before + listing(
                                buf@,
                            )) + rest->Ok_0);
                        }
                    }
                    current = next;
                    count = count + 1;
                },
            }
        }
    }
}

} // verus!
