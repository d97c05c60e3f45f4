use fat32_reader::device::block_device::{BlockDeviceError, MemoryBlockDevice};
use fat32_reader::fs::boot_sector::BootSector;
use fat32_reader::fs::clusters::{ClusterError, ClusterReader};
use fat32_reader::fs::directory::{DirectoryEntry, DirectoryReader, EntryType};
use fat32_reader::fs::fat::{Fat, FatError};

fn volume() -> BootSector {
    BootSector {
        bytes_per_sector: 512,
        sectors_per_cluster: 1,
        reserved_sectors: 1,
        fat_count: 1,
        sectors_per_fat: 1,
        root_cluster: 2,
    }
}

/// A 32-byte record with space-padded name fields.
fn record(base: &str, ext: &str, attr: u8, cluster: u16, size: u32) -> [u8; 32] {
    let mut r = [0u8; 32];
    r[..11].copy_from_slice(b"           ");
    r[..base.len()].copy_from_slice(base.as_bytes());
    r[8..8 + ext.len()].copy_from_slice(ext.as_bytes());
    r[11] = attr;
    r[26..28].copy_from_slice(&cluster.to_le_bytes());
    r[28..32].copy_from_slice(&size.to_le_bytes());
    r
}

/// An image with one reserved sector, a FAT sector starting with `entries`,
/// and the given data clusters, each padded with zero bytes to 512 bytes.
fn image(entries: &[u32], clusters: &[Vec<u8>]) -> Vec<u8> {
    let mut img = vec![0u8; 512];
    for entry in entries {
        img.extend_from_slice(&entry.to_le_bytes());
    }
    img.resize(1024, 0);
    for cluster in clusters {
        let mut data = cluster.clone();
        data.resize(512, 0);
        img.extend_from_slice(&data);
    }
    img
}

/// Parses `bytes` as the records of a directory.
fn parse(bytes: &[u8]) -> Vec<DirectoryEntry> {
    let img = image(&[], &[]);
    let device = MemoryBlockDevice::new(&img);
    let boot = volume();
    let fat = Fat::new(&device, &boot);
    let clusters = ClusterReader::new(&device, &boot, &fat);
    let dir = DirectoryReader::new(&clusters);
    dir.entries(bytes)
}

/// Lists the directory at `cluster` of `img`.
fn list(img: &[u8], cluster: u32) -> Result<Vec<DirectoryEntry>, ClusterError> {
    let device = MemoryBlockDevice::new(img);
    let boot = volume();
    let fat = Fat::new(&device, &boot);
    let clusters = ClusterReader::new(&device, &boot, &fat);
    let dir = DirectoryReader::new(&clusters);
    dir.read_dir(cluster)
}

fn names(entries: &[DirectoryEntry]) -> Vec<String> {
    entries.iter().map(|e| String::from_utf8(e.name.clone()).unwrap()).collect()
}

#[test]
fn empty_buffer_lists_nothing() {
    assert_eq!(parse(&[]), vec![]);
}

#[test]
fn end_marker_first_lists_nothing() {
    let mut bytes = vec![0u8; 32];
    bytes.extend_from_slice(&record("AFTER", "TXT", 0x20, 5, 1));
    assert_eq!(parse(&bytes), vec![]);
}

#[test]
fn one_file_entry() {
    let bytes = record("FILE", "TXT", 0x20, 7, 5);
    assert_eq!(
        parse(&bytes),
        vec![DirectoryEntry {
            name: b"FILE.TXT".to_vec(),
            entry_type: EntryType::File,
            start_cluster: 7,
            size: 5,
        }]
    );
}

#[test]
fn one_directory_entry() {
    let bytes = record("DIR", "", 0x10, 3, 0);
    assert_eq!(
        parse(&bytes),
        vec![DirectoryEntry {
            name: b"DIR".to_vec(),
            entry_type: EntryType::Directory,
            start_cluster: 3,
            size: 0,
        }]
    );
}

#[test]
fn directory_bit_decides_the_type() {
    for attr in [0x10u8, 0x11, 0x12, 0x14, 0x30, 0x37, 0x90, 0xF7] {
        let entries = parse(&record("D", "", attr, 3, 0));
        assert_eq!(entries[0].entry_type, EntryType::Directory);
    }
    for attr in [0x00u8, 0x01, 0x02, 0x04, 0x20, 0x27, 0x40, 0xE7] {
        let entries = parse(&record("F", "", attr, 3, 0));
        assert_eq!(entries[0].entry_type, EntryType::File);
    }
}

#[test]
fn deleted_entries_are_skipped() {
    let mut deleted = record("GONE", "TXT", 0x20, 4, 9);
    deleted[0] = 0xE5;
    let mut bytes = deleted.to_vec();
    bytes.extend_from_slice(&record("KEPT", "TXT", 0x20, 5, 1));
    bytes.extend_from_slice(&deleted);
    bytes.extend_from_slice(&record("ALSO", "", 0x10, 6, 0));

    assert_eq!(names(&parse(&bytes)), ["KEPT.TXT", "ALSO"]);
}

#[test]
fn volume_labels_and_long_names_are_skipped() {
    let mut bytes = record("MYVOLUME", "LBL", 0x08, 0, 0).to_vec();
    bytes.extend_from_slice(&record("Alongna", "me", 0x0F, 0, 0));
    bytes.extend_from_slice(&record("LABELDIR", "", 0x18, 0, 0));
    bytes.extend_from_slice(&record("REAL", "TXT", 0x20, 5, 1));

    assert_eq!(names(&parse(&bytes)), ["REAL.TXT"]);
}

#[test]
fn entries_after_the_end_marker_are_not_listed() {
    let mut bytes = record("ONE", "", 0x20, 4, 1).to_vec();
    bytes.extend_from_slice(&record("TWO", "", 0x20, 5, 2));
    bytes.extend_from_slice(&[0u8; 32]);
    bytes.extend_from_slice(&record("THREE", "", 0x20, 6, 3));

    assert_eq!(names(&parse(&bytes)), ["ONE", "TWO"]);
}

#[test]
fn entries_keep_their_order() {
    let mut bytes = Vec::new();
    for name in ["C", "A", "B", "A"] {
        bytes.extend_from_slice(&record(name, "", 0x20, 4, 1));
    }

    assert_eq!(names(&parse(&bytes)), ["C", "A", "B", "A"]);
}

#[test]
fn trailing_partial_record_is_ignored() {
    let mut bytes = record("WHOLE", "", 0x20, 4, 1).to_vec();
    bytes.extend_from_slice(&record("PARTIAL", "", 0x20, 5, 2)[..31]);

    assert_eq!(names(&parse(&bytes)), ["WHOLE"]);
    assert_eq!(parse(&bytes[..31]), vec![]);
}

#[test]
fn names_are_trimmed_and_joined() {
    assert_eq!(names(&parse(&record("FOO", "TXT", 0x20, 4, 1))), ["FOO.TXT"]);
    assert_eq!(names(&parse(&record("README", "", 0x20, 4, 1))), ["README"]);
    assert_eq!(names(&parse(&record("A", "B", 0x20, 4, 1))), ["A.B"]);
    assert_eq!(names(&parse(&record("ABCDEFGH", "XYZ", 0x20, 4, 1))), ["ABCDEFGH.XYZ"]);
    assert_eq!(names(&parse(&record("A B", "C D", 0x20, 4, 1))), ["A B.C D"]);
    assert_eq!(names(&parse(&record(" X", " Y", 0x20, 4, 1))), [" X. Y"]);
    assert_eq!(names(&parse(&record("", "EXT", 0x20, 4, 1))), [".EXT"]);
}

#[test]
fn names_keep_their_case() {
    assert_eq!(names(&parse(&record("MiXed", "tXt", 0x20, 4, 1))), ["MiXed.tXt"]);
}

#[test]
fn zero_bytes_pad_a_name_like_spaces() {
    let mut bytes = [0u8; 32];
    bytes[..3].copy_from_slice(b"DIR");
    bytes[11] = 0x10;
    assert_eq!(names(&parse(&bytes)), ["DIR"]);

    let mut bytes = [0u8; 32];
    bytes[..4].copy_from_slice(b"FILE");
    bytes[8..10].copy_from_slice(b"TX");
    assert_eq!(names(&parse(&bytes)), ["FILE.TX"]);
}

#[test]
fn start_cluster_is_the_low_word_alone() {
    let mut bytes = record("F", "", 0x20, 0x1234, 0);
    bytes[20] = 0xFF;
    bytes[21] = 0xFF;

    assert_eq!(parse(&bytes)[0].start_cluster, 0x1234);
    assert_eq!(parse(&record("F", "", 0x20, 0xFFFF, 0))[0].start_cluster, 0xFFFF);
}

#[test]
fn size_is_little_endian() {
    let mut bytes = record("F", "", 0x20, 4, 0);
    bytes[28] = 0x04;
    bytes[29] = 0x03;
    bytes[30] = 0x02;
    bytes[31] = 0x01;

    assert_eq!(parse(&bytes)[0].size, 0x0102_0304);
    assert_eq!(parse(&record("F", "", 0x20, 4, u32::MAX))[0].size, u32::MAX);
}

#[test]
fn read_dir_stops_at_the_end_marker() {
    let mut root = record("A", "", 0x20, 4, 1).to_vec();
    root.extend_from_slice(&record("B", "", 0x10, 5, 0));
    let img = image(&[0, 0, 0], &[root]);

    assert_eq!(names(&list(&img, 2).unwrap()), ["A", "B"]);
}

#[test]
fn read_dir_follows_the_chain() {
    let mut first = Vec::new();
    for i in 0..16 {
        first.extend_from_slice(&record(&format!("F{}", i), "", 0x20, 9, 1));
    }
    let unrelated = record("OTHER", "", 0x20, 9, 1).to_vec();
    let last = record("LAST", "", 0x20, 9, 1).to_vec();
    let img = image(&[0, 0, 4, 0x0FFF_FFFF, 0x0FFF_FFFF], &[first, unrelated, last]);

    let listed = names(&list(&img, 2).unwrap());

    assert_eq!(listed.len(), 17);
    assert_eq!(listed[0], "F0");
    assert_eq!(listed[15], "F15");
    assert_eq!(listed[16], "LAST");
}

#[test]
fn read_dir_ends_with_the_chain() {
    let mut full = Vec::new();
    for i in 0..16 {
        full.extend_from_slice(&record(&format!("F{}", i), "", 0x20, 9, 1));
    }
    let img = image(&[0, 0, 0x0FFF_FFF8], &[full]);

    assert_eq!(list(&img, 2).unwrap().len(), 16);
}

#[test]
fn read_dir_does_not_read_past_the_end_marker() {
    let root = record("ONLY", "", 0x20, 4, 1).to_vec();
    let img = image(&[0, 0, 0x0FFF_FFF7], &[root]);

    assert_eq!(names(&list(&img, 2).unwrap()), ["ONLY"]);
}

#[test]
fn read_dir_reports_a_broken_chain() {
    let mut full = Vec::new();
    for i in 0..16 {
        full.extend_from_slice(&record(&format!("F{}", i), "", 0x20, 9, 1));
    }
    let img = image(&[0, 0, 0x0FFF_FFF7], &[full.clone()]);
    assert_eq!(list(&img, 2), Err(ClusterError::Fat(FatError::BadCluster)));

    let img = image(&[0, 0, 0], &[full.clone()]);
    assert_eq!(list(&img, 2), Err(ClusterError::Fat(FatError::FreeClusterInChain)));

    let img = image(&[0, 0, 7], &[full]);
    assert_eq!(list(&img, 2), Err(ClusterError::Io(BlockDeviceError::OutOfBounds)));
}

#[test]
fn read_dir_gives_up_on_a_loop() {
    let mut full = Vec::new();
    for i in 0..16 {
        full.extend_from_slice(&record(&format!("F{}", i), "", 0x20, 9, 1));
    }
    let img = image(&[0, 0, 2], &[full]);

    assert_eq!(list(&img, 2), Err(ClusterError::ChainTooLong));
}

#[test]
fn read_dir_of_reserved_cluster() {
    let img = image(&[0, 0, 0x0FFF_FFFF], &[vec![]]);

    assert_eq!(list(&img, 0), Err(ClusterError::InvalidCluster));
    assert_eq!(list(&img, 1), Err(ClusterError::InvalidCluster));
}

#[test]
fn read_dir_agrees_with_parsing_the_whole_chain() {
    let mut first = Vec::new();
    for i in 0..16 {
        first.extend_from_slice(&record(&format!("F{}", i), "TXT", 0x20, 9, i));
    }
    let mut second = record("G", "", 0x10, 8, 0).to_vec();
    second.extend_from_slice(&[0u8; 32]);
    second.extend_from_slice(&record("HIDDEN", "", 0x20, 8, 0));
    let img = image(&[0, 0, 3, 0x0FFF_FFFF], &[first, second]);

    let device = MemoryBlockDevice::new(&img);
    let boot = volume();
    let fat = Fat::new(&device, &boot);
    let clusters = ClusterReader::new(&device, &boot, &fat);
    let dir = DirectoryReader::new(&clusters);
    let mut bytes = Vec::new();
    clusters.read_cluster_chain(2, &mut bytes).unwrap();

    assert_eq!(dir.read_dir(2).unwrap(), dir.entries(&bytes));
    assert_eq!(dir.entries(&bytes).len(), 17);
}
