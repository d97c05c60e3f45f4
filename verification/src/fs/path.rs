//! Resolving a slash-separated path to a directory entry.

use crate::device::block_device::BlockDevice;
use crate::fs::boot_sector::BootSector;
use crate::fs::clusters::{is_cluster_fault, max_chain_length, ClusterError};
use crate::fs::directory::{entry_views, DirectoryEntry, DirectoryReader, EntryType, EntryView};
use vstd::prelude::*;
use vstd::string::StringSliceAdditionalSpecFns;

verus! {

/// The byte that separates the segments of a path: `/`.
pub const SEPARATOR: u8 = 0x2F;

/// Reasons a path does not resolve.
#[derive(Debug, Clone, Copy, PartialEq, Eq)]
pub enum PathError {
    /// A segment names no entry of its directory, or a segment that is not
    /// the last names a file.
    NotFound,
    /// A directory on the way could not be read.
    Cluster(ClusterError),
}

impl From<ClusterError> for PathError {
    fn from(e: ClusterError) -> (err: Self) {
        PathError::Cluster(e)
    }
}

impl vstd::std_specs::convert::FromSpecImpl<ClusterError> for PathError {
    open spec fn obeys_from_spec() -> bool {
        true
    }

    open spec fn from_spec(e: ClusterError) -> Self {
        PathError::Cluster(e)
    }
}

/// `pending` as a one-element list of segments, or no segment when it is
/// empty.
pub open spec fn segment_list(pending: Seq<u8>) -> Seq<Seq<u8>> {
    if pending.len() == 0 {
        Seq::empty()
    } else {
        seq![pending]
    }
}

/// The segments of `pending` followed by `path`, where `pending` holds the
/// bytes of a segment that has begun.
pub open spec fn split_after(path: Seq<u8>, pending: Seq<u8>) -> Seq<Seq<u8>>
    decreases path.len(),
{
    if path.len() == 0 {
        segment_list(pending)
    } else if path[0] == SEPARATOR {
        segment_list(pending) + split_after(path.skip(1), Seq::empty())
    } else {
        split_after(path.skip(1), pending.push(path[0]))
    }
}

/// The segments of `path`: its maximal runs of bytes other than `/`, in
/// order. Leading, trailing and repeated separators yield no segment.
pub open spec fn split_path(path: Seq<u8>) -> Seq<Seq<u8>> {
    split_after(path, Seq::empty())
}

/// Whether `segment` can stand in a path: it is not empty and holds no
/// separator.
pub open spec fn is_segment(segment: Seq<u8>) -> bool {
    &&& segment.len() > 0
    &&& forall|i: int| 0 <= i < segment.len() ==> segment[i] != SEPARATOR
}

/// The absolute path that names `segments`: each segment behind a `/`.
pub open spec fn join_path(segments: Seq<Seq<u8>>) -> Seq<u8>
    decreases segments.len(),
{
    if segments.len() == 0 {
        Seq::empty()
    } else {
        seq![SEPARATOR] + segments[0] + join_path(segments.drop_first())
    }
}

/// Bytes that are no separators extend the segment that has begun.
pub proof fn split_after_run(run: Seq<u8>, path: Seq<u8>, pending: Seq<u8>)
    requires
        forall|i: int| 0 <= i < run.len() ==> run[i] != SEPARATOR,
    ensures
        split_after(run + path, pending) == split_after(path, pending + run),
    decreases run.len(),
{
    if run.len() > 0 {
        assert((run + path).skip(1) == run.skip(1) + path);
        split_after_run(run.skip(1), path, pending.push(run[0]));
        assert(pending.push(run[0]) + run.skip(1) == pending + run);
    }
}

/// Splitting undoes joining: the path that names a list of segments splits
/// into exactly those segments.
pub proof fn split_of_joined(segments: Seq<Seq<u8>>)
    requires
        forall|k: int| 0 <= k < segments.len() ==> is_segment(#[trigger] segments[k]),
    ensures
        split_path(join_path(segments)) == segments,
    decreases segments.len(),
{
    if segments.len() > 0 {
        let first = segments[0];
        let rest = segments.drop_first();
        assert forall|k: int| 0 <= k < rest.len() implies is_segment(#[trigger] rest[k]) by {
            assert(rest[k] == segments[k + 1]);
        }
        split_of_joined(rest);
        assert(join_path(segments).skip(1) == first + join_path(rest));
        split_after_run(first, join_path(rest), Seq::empty());
    }
}

/// Separators at the start of a path, however many, name nothing.
pub proof fn leading_separator_is_tolerated(path: Seq<u8>)
    ensures
        split_path(seq![SEPARATOR] + path) == split_path(path),
{
    assert((seq![SEPARATOR] + path).skip(1) == path);
}

/// `b` with an ASCII lower-case letter replaced by its upper-case form.
pub open spec fn fold_case(b: u8) -> u8 {
    if 0x61 <= b <= 0x7A {
        (b - 0x20) as u8
    } else {
        b
    }
}

/// Whether two names are equal up to the case of their ASCII letters.
pub open spec fn names_match(a: Seq<u8>, b: Seq<u8>) -> bool {
    &&& a.len() == b.len()
    &&& forall|i: int| 0 <= i < a.len() ==> fold_case(#[trigger] a[i]) == fold_case(b[i])
}

/// Whether some entry of `entries` answers to `name`.
pub open spec fn has_match(entries: Seq<EntryView>, name: Seq<u8>) -> bool {
    exists|i: int| 0 <= i < entries.len() && names_match(#[trigger] entries[i].name, name)
}

/// Whether `entries[i]` answers to `name` and no entry before it does.
pub open spec fn is_first_match(entries: Seq<EntryView>, name: Seq<u8>, i: int) -> bool {
    &&& 0 <= i < entries.len()
    &&& names_match(entries[i].name, name)
    &&& forall|j: int| 0 <= j < i ==> !names_match(#[trigger] entries[j].name, name)
}

/// The first entry of `entries` that answers to `name`, if there is one.
pub open spec fn first_match(entries: Seq<EntryView>, name: Seq<u8>) -> Option<EntryView> {
    if has_match(entries, name) {
        Some(entries[choose|i: int| is_first_match(entries, name, i)])
    } else {
        None
    }
}

/// Whether `e` reports a fault of the medium rather than what it holds.
pub open spec fn is_path_fault(e: PathError) -> bool {
    e matches PathError::Cluster(cause) && is_cluster_fault(cause)
}

/// Upper-cases an ASCII letter.
fn to_upper(b: u8) -> (folded: u8)
    ensures
        folded == fold_case(b),
{
    if 0x61 <= b && b <= 0x7A {
        b - 0x20
    } else {
        b
    }
}

/// Compares two names without regard to the case of ASCII letters.
fn names_equal(a: &[u8], b: &[u8]) -> (same: bool)
    ensures
        same == names_match(a@, b@),
{
    if a.len() != b.len() {
        return false;
    }
    let mut i: usize = 0;
    while i < a.len()
        invariant
            i <= a@.len() == b@.len(),
            forall|j: int| 0 <= j < i ==> fold_case(#[trigger] a@[j]) == fold_case(b@[j]),
        decreases a@.len() - i,
    {
        if to_upper(a[i]) != to_upper(b[i]) {
            return false;
        }
        i = i + 1;
    }
    true
}

/// Finds the first entry of `entries` that answers to `name`.
fn find_entry(entries: &Vec<DirectoryEntry>, name: &[u8]) -> (found: Option<usize>)
    ensures
        match found {
            Some(i) => is_first_match(entry_views(entries@), name@, i as int),
            None => !has_match(entry_views(entries@), name@),
        },
{
    let mut i: usize = 0;
    while i < entries.len()
        invariant
            i <= entries@.len(),
            forall|j: int|
                0 <= j < i ==> !names_match(#[trigger] entry_views(entries@)[j].name, name@),
        decreases entries@.len() - i,
    {
        if names_equal(entries[i].name.as_slice(), name) {
            return Some(i);
        }
        i = i + 1;
    }
    None
}

/// Whether the ranges of `ranges` lie within a path of `len` bytes.
spec fn ranges_within(ranges: Seq<(usize, usize)>, len: int) -> bool {
    forall|k: int| 0 <= k < ranges.len() ==> (#[trigger] ranges[k]).0 <= ranges[k].1 <= len
}

/// The pieces of `path` that `ranges` cut out.
spec fn cut(path: Seq<u8>, ranges: Seq<(usize, usize)>) -> Seq<Seq<u8>> {
    Seq::new(ranges.len(), |k: int| path.subrange(ranges[k].0 as int, ranges[k].1 as int))
}

/// Locates the segments of `path`.
fn locate_segments(path: &[u8]) -> (ranges: Vec<(usize, usize)>)
    ensures
        ranges_within(ranges@, path@.len() as int),
        cut(path@, ranges@) == split_path(path@),
{
    let mut ranges: Vec<(usize, usize)> = Vec::new();
    let mut begin: usize = 0;
    let mut at: usize = 0;
    assert(path@.skip(0) == path@);
    assert(path@.subrange(0, 0) == Seq::<u8>::empty());
    while at < path.len()
        invariant
            begin <= at <= path@.len(),
            ranges_within(ranges@, path@.len() as int),
            cut(path@, ranges@) + split_after(
                path@.skip(at as int),
                path@.subrange(begin as int, at as int),
            ) == split_path(path@),
        decreases path@.len() - at,
    {
        let ghost tail = path@.skip(at as int);
        let ghost pending = path@.subrange(begin as int, at as int);
        assert(tail.skip(1) == path@.skip(at + 1));
        if path[at] == SEPARATOR {
            if begin < at {
                ranges.push((begin, at));
            }
            begin = at + 1;
            assert(path@.subrange(begin as int, at + 1) == Seq::<u8>::empty());
        } else {
            assert(pending.push(tail[0]) == path@.subrange(begin as int, at + 1));
        }
        at = at + 1;
    }
    if begin < at {
        ranges.push((begin, at));
    }
    ranges
}

/// Walks paths through the directories of a volume.
pub struct PathResolver<'a, D: BlockDevice> {
    boot: &'a BootSector,
    dir: &'a DirectoryReader<'a, D>,
}

impl<'a, D: BlockDevice> PathResolver<'a, D> {
    /// The reader that directories are listed through.
    pub closed spec fn dir(&self) -> DirectoryReader<'a, D> {
        *self.dir
    }

    /// The geometry of the volume.
    pub closed spec fn boot(&self) -> BootSector {
        *self.boot
    }

    /// Whether the medium behind the resolver never faults.
    pub open spec fn fault_free(&self) -> bool {
        self.dir().clusters().fault_free()
    }

    /// Whether listing the directory at `cluster` may meet a fault: the
    /// medium is one that faults, and the listing makes a read.
    pub open spec fn may_fault(&self, cluster: u32) -> bool {
        &&& !self.fault_free()
        &&& cluster >= 2
        &&& max_chain_length(self.dir().clusters().boot()) > 0
    }

    /// The listing of the directory at `cluster`.
    pub open spec fn spec_list(&self, cluster: u32) -> Result<Seq<EntryView>, ClusterError> {
        self.dir().spec_read_dir(cluster, max_chain_length(self.dir().clusters().boot()))
    }

    /// The entry that `name` denotes in the directory at `cluster`: the first
    /// that answers to it.
    pub open spec fn spec_lookup(&self, cluster: u32, name: Seq<u8>) -> Result<
        EntryView,
        PathError,
    > {
        match self.spec_list(cluster) {
            Err(e) => Err(PathError::Cluster(e)),
            Ok(entries) => match first_match(entries, name) {
                None => Err(PathError::NotFound),
                Some(entry) => Ok(entry),
            },
        }
    }

    /// Where the segments of `segments`, of which there is at least one,
    /// lead from the directory at `cluster`. Each segment is looked up in
    /// the current directory alone, and the first entry that answers to it
    /// counts. The last segment may name a file or a directory; every other
    /// must name a directory, which becomes the current one.
    pub open spec fn spec_walk(&self, segments: Seq<Seq<u8>>, cluster: u32) -> Result<
        (u32, Option<EntryView>),
        PathError,
    >
        decreases segments.len(),
    {
        if segments.len() == 0 {
            Err(PathError::NotFound)
        } else {
            match self.spec_lookup(cluster, segments[0]) {
                Err(e) => Err(e),
                Ok(entry) => if segments.len() == 1 {
                    Ok((entry.start_cluster, Some(entry)))
                } else if entry.entry_type != EntryType::Directory {
                    Err(PathError::NotFound)
                } else {
                    self.spec_walk(segments.drop_first(), entry.start_cluster)
                },
            }
        }
    }

    /// What the path whose bytes are `path` resolves to from the directory
    /// at `start`: that directory itself, with no entry, when the path has
    /// no segment, and else where its segments lead.
    pub open spec fn spec_resolve(&self, path: Seq<u8>, start: u32) -> Result<
        (u32, Option<EntryView>),
        PathError,
    > {
        let segments = split_path(path);
        if segments.len() == 0 {
            Ok((start, None))
        } else {
            self.spec_walk(segments, start)
        }
    }

    /// A walk that succeeds ends at an entry, and at the cluster where that
    /// entry's data starts.
    pub proof fn walk_ends_at_entry(&self, segments: Seq<Seq<u8>>, cluster: u32)
        ensures
            self.spec_walk(segments, cluster) matches Ok((end, found)) ==> found matches Some(
                entry,
            ) && end == entry.start_cluster,
        decreases segments.len(),
    {
        if segments.len() > 1 {
            match self.spec_lookup(cluster, segments[0]) {
                Ok(entry) => {
                    self.walk_ends_at_entry(segments.drop_first(), entry.start_cluster);
                },
                Err(_) => {},
            }
        }
    }

    /// A file whose contents were stored along its chain reads back: when a
    /// path resolves to a file whose `size` is the length of `payload`, and
    /// `stored`, which begins with `payload`, fills the clusters of the chain
    /// that starts at the cluster the path resolved to, then reading that
    /// chain delivers `stored`: at least `size` bytes, of which the first
    /// `size` are `payload`.
    pub proof fn stored_file_reads_back(
        &self,
        path: Seq<u8>,
        start: u32,
        clusters: Seq<u32>,
        stored: Seq<u8>,
        payload: Seq<u8>,
    )
        requires
            self.spec_resolve(path, start) matches Ok((cluster, Some(entry))) && cluster
                == clusters[0] && entry.entry_type == EntryType::File && entry.size
                == payload.len(),
            self.dir().clusters().is_chain(clusters),
            clusters.len() <= max_chain_length(self.dir().clusters().boot()),
            self.dir().clusters().is_stored_along(clusters, stored),
            payload.is_prefix_of(stored),
        ensures
            self.spec_resolve(path, start) matches Ok((_, Some(entry))) && {
                let (bytes, end) = self.dir().clusters().spec_chain(
                    entry.start_cluster,
                    max_chain_length(self.dir().clusters().boot()),
                );
                &&& end is Ok
                &&& bytes == stored
                &&& bytes.len() >= entry.size
                &&& bytes.subrange(0, entry.size as int) == payload
            },
    {
        let reader = self.dir().clusters();
        self.walk_ends_at_entry(split_path(path), start);
        reader.clusters_hold_what_was_stored(clusters, stored);
        reader.chain_reads_its_clusters(clusters, max_chain_length(reader.boot()));
    }

    /// A resolver of paths on the volume of geometry `boot`, whose
    /// directories are listed through `dir`.
    pub fn new(boot: &'a BootSector, dir: &'a DirectoryReader<'a, D>) -> (resolver: Self)
        ensures
            resolver.boot() == *boot,
            resolver.dir() == *dir,
    {
        PathResolver { boot, dir }
    }

    /// The cluster at which the volume's root directory starts, from which
    /// absolute paths are resolved.
    pub fn root_cluster(&self) -> (cluster: u32)
        ensures
            cluster == self.boot().root_cluster,
    {
        self.boot.root_cluster
    }

    /// Looks `name` up in the directory whose chain starts at `cluster`.
    ///
    /// The result is the one `spec_lookup` gives, unless the medium faulted
    /// during a read.
    pub fn lookup(&self, cluster: u32, name: &[u8]) -> (res: Result<DirectoryEntry, PathError>)
        ensures
            ({
                let denoted = self.spec_lookup(cluster, name@);
                ||| match res {
                    Ok(entry) => denoted == Ok::<EntryView, PathError>(entry@),
                    Err(e) => denoted == Err::<EntryView, PathError>(e),
                }
                ||| self.may_fault(cluster) && (res matches Err(e) && is_path_fault(e))
            }),
            res is Ok ==> cluster >= 2 && max_chain_length(self.dir().clusters().boot()) > 0,
    {
        let mut list = match self.dir.read_dir(cluster) {
            Ok(list) => list,
            Err(e) => {
                return Err(PathError::from(e));
            },
        };
        match find_entry(&list, name) {
            None => Err(PathError::NotFound),
            Some(i) => Ok(list.remove(i)),
        }
    }

    /// Resolves the path whose bytes are `path` from the directory whose
    /// chain starts at `start_cluster`, and returns the entry the path names
    /// with the cluster its data starts at.
    ///
    /// The result is the one `spec_resolve` gives, unless the medium faulted
    /// during a read.
    pub fn resolve_bytes(&self, path: &[u8], start_cluster: u32) -> (res: Result<
        (u32, Option<DirectoryEntry>),
        PathError,
    >)
        ensures
            ({
                let resolved = self.spec_resolve(path@, start_cluster);
                ||| match res {
                    Ok((cluster, Some(entry))) => resolved == Ok::<
                        (u32, Option<EntryView>),
                        PathError,
                    >((cluster, Some(entry@))),
                    Ok((cluster, None)) => resolved == Ok::<(u32, Option<EntryView>), PathError>(
                        (cluster, None),
                    ),
                    Err(e) => resolved == Err::<(u32, Option<EntryView>), PathError>(e),
                }
                ||| {
                    &&& split_path(path@).len() > 0
                    &&& self.may_fault(start_cluster)
                    &&& res matches Err(e) && is_path_fault(e)
                }
            }),
    {
        let ranges = locate_segments(path);
        let ghost segments = split_path(path@);
        if ranges.len() == 0 {
            return Ok((start_cluster, None));
        }
        let count = ranges.len();
        let mut current = start_cluster;
        let mut k: usize = 0;
        assert(segments.skip(0) == segments);
        loop
            invariant
                segments == split_path(path@),
                k < count == ranges@.len() == segments.len(),
                k == 0 ==> current == start_cluster,
                k > 0 ==> start_cluster >= 2 && max_chain_length(self.dir().clusters().boot()) > 0,
                ranges_within(ranges@, path.len() as int),
                cut(path@, ranges@) == segments,
                self.spec_resolve(path@, start_cluster) == self.spec_walk(
                    segments.skip(k as int),
                    current,
                ),
            decreases count - k,
        {
            assert(segments.skip(k as int).drop_first() == segments.skip(k + 1));
            let (begin, end) = ranges[k];
            let entry = match self.lookup(current, &path[begin..end]) {
                Ok(entry) => entry,
                Err(e) => {
                    return Err(e);
                },
            };
            if k + 1 == count {
                return Ok((entry.start_cluster, Some(entry)));
            }
            match entry.entry_type {
                EntryType::Directory => {},
                EntryType::File => {
                    return Err(PathError::NotFound);
                },
            }
            current = entry.start_cluster;
            k = k + 1;
        }
    }

    /// Resolves `path`, read as its UTF-8 bytes, from the directory whose
    /// chain starts at `start_cluster`, as `resolve_bytes` does.
    pub fn resolve(&self, path: &str, start_cluster: u32) -> (res: Result<
        (u32, Option<DirectoryEntry>),
        PathError,
    >)
        ensures
            ({
                let resolved = self.spec_resolve(path.spec_bytes(), start_cluster);
                ||| match res {
                    Ok((cluster, Some(entry))) => resolved == Ok::<
                        (u32, Option<EntryView>),
                        PathError,
                    >((cluster, Some(entry@))),
                    Ok((cluster, None)) => resolved == Ok::<(u32, Option<EntryView>), PathError>(
                        (cluster, None),
                    ),
                    Err(e) => resolved == Err::<(u32, Option<EntryView>), PathError>(e),
                }
                ||| {
                    &&& split_path(path.spec_bytes()).len() > 0
                    &&& self.may_fault(start_cluster)
                    &&& res matches Err(e) && is_path_fault(e)
                }
            }),
    {
        self.resolve_bytes(path.as_bytes(), start_cluster)
    }
}

} // verus!
