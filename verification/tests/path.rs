use fat32_reader::device::block_device::{BlockDeviceError, MemoryBlockDevice};
use fat32_reader::fs::boot_sector::BootSector;
use fat32_reader::fs::fat::Fat;
use fat32_reader::fs::clusters::{ClusterError, ClusterReader};
use fat32_reader::fs::directory::{DirectoryEntry, DirectoryReader, EntryType};
use fat32_reader::fs::path::{PathResolver, PathError};

fn make_boot_sector() -> BootSector {
    BootSector {
        bytes_per_sector: 512,
        sectors_per_cluster: 1,
        reserved_sectors: 1,
        fat_count: 1,
        sectors_per_fat: 1,
        root_cluster: 2,
    }
}

// A root directory holding DIR, which holds FILE.TXT.
fn make_image() -> Vec<u8> {
    let mut img = vec![0u8; 512];
    img.extend_from_slice(&vec![0u8; 512]);

    let mut root = vec![0u8; 512];

    // DIR -> cluster 3
    root[0..32].copy_from_slice(&super_dir("DIR", 3));
    root[32] = 0x00;

    let mut dir = vec![0u8; 512];
    dir[0..32].copy_from_slice(&super_file("FILE", "TXT", 5));
    dir[32] = 0x00;

    img.extend_from_slice(&root);
    img.extend_from_slice(&dir);

    img
}

fn super_dir(name: &str, cluster: u32) -> [u8; 32] {
    let mut e = [0u8; 32];
    e[0..name.len()].copy_from_slice(name.as_bytes());
    e[11] = 0x10;
    e[26..28].copy_from_slice(&(cluster as u16).to_le_bytes());
    e
}

fn super_file(name: &str, ext: &str, cluster: u32) -> [u8; 32] {
    let mut e = [0u8; 32];
    e[0..name.len()].copy_from_slice(name.as_bytes());
    e[8..8 + ext.len()].copy_from_slice(ext.as_bytes());
    e[11] = 0x20;
    e[26..28].copy_from_slice(&(cluster as u16).to_le_bytes());
    e
}

#[test]
fn resolve_absolute_path() {
    let img = make_image();
    let device = MemoryBlockDevice::new(&img);
    let boot = make_boot_sector();
    let fat = Fat::new(&device, &boot);
    let cluster = ClusterReader::new(&device, &boot, &fat);
    let dir = DirectoryReader::new(&cluster);
    let resolver = PathResolver::new(&boot, &dir);

    let (cluster, entry) = resolver.resolve("/DIR", 2).unwrap();

    assert_eq!(cluster, 3);
    assert_eq!(entry.unwrap().entry_type, EntryType::Directory);
}

#[test]
fn resolve_file_path() {
    let img = make_image();
    let device = MemoryBlockDevice::new(&img);
    let boot = make_boot_sector();
    let fat = Fat::new(&device, &boot);
    let cluster = ClusterReader::new(&device, &boot, &fat);
    let dir = DirectoryReader::new(&cluster);
    let resolver = PathResolver::new(&boot, &dir);

    let (_, entry) = resolver.resolve("/DIR/FILE.TXT", 2).unwrap();

    assert_eq!(entry.unwrap().entry_type, EntryType::File);
}

#[test]
fn path_not_found() {
    let img = make_image();
    let device = MemoryBlockDevice::new(&img);
    let boot = make_boot_sector();
    let fat = Fat::new(&device, &boot);
    let cluster = ClusterReader::new(&device, &boot, &fat);
    let dir = DirectoryReader::new(&cluster);
    let resolver = PathResolver::new(&boot, &dir);

    assert_eq!(
        resolver.resolve("/NOPE", 2),
        Err(PathError::NotFound)
    );
}

/// A 32-byte record with space-padded name fields.
fn record(base: &str, ext: &str, attr: u8, cluster: u16, size: u32) -> [u8; 32] {
    let mut r = [0u8; 32];
    r[..11].copy_from_slice(b"           ");
    r[..base.len()].copy_from_slice(base.as_bytes());
    r[8..8 + ext.len()].copy_from_slice(ext.as_bytes());
    r[11] = attr;
    r[26..28].copy_from_slice(&cluster.to_le_bytes());
    r[28..32].copy_from_slice(&size.to_le_bytes());
    r
}

/// A volume with this tree, every directory one cluster long:
///
/// ```text
/// /            cluster 2
///   DOCS/      cluster 3
///     NOTES/   cluster 4
///       a.txt  cluster 9, 11 bytes
///     READ.ME  cluster 8, 7 bytes
///     READ.ME  cluster 7, 1 byte
///   BOOT.BIN   cluster 6, 100 bytes
///   GHOST/     cluster 60, beyond the medium
/// ```
fn make_tree() -> Vec<u8> {
    let mut img = vec![0u8; 512];
    let mut fat = vec![0u8; 512];
    for cluster in 2..10usize {
        fat[cluster * 4..cluster * 4 + 4].copy_from_slice(&0x0FFF_FFFFu32.to_le_bytes());
    }
    img.extend_from_slice(&fat);

    let mut root = vec![0u8; 512];
    root[0..32].copy_from_slice(&record("DOCS", "", 0x10, 3, 0));
    root[32..64].copy_from_slice(&record("BOOT", "BIN", 0x20, 6, 100));
    root[64..96].copy_from_slice(&record("GHOST", "", 0x10, 60, 0));
    img.extend_from_slice(&root);

    let mut docs = vec![0u8; 512];
    docs[0..32].copy_from_slice(&record("NOTES", "", 0x10, 4, 0));
    docs[32..64].copy_from_slice(&record("READ", "ME", 0x20, 8, 7));
    docs[64..96].copy_from_slice(&record("READ", "ME", 0x20, 7, 1));
    img.extend_from_slice(&docs);

    let mut notes = vec![0u8; 512];
    notes[0..32].copy_from_slice(&record("a", "txt", 0x20, 9, 11));
    img.extend_from_slice(&notes);

    img.resize(img.len() + 5 * 512, 0);
    img
}

/// Resolves `path` from cluster 2 of the tree.
fn resolve_in_tree(path: &str) -> Result<(u32, Option<DirectoryEntry>), PathError> {
    let img = make_tree();
    let device = MemoryBlockDevice::new(&img);
    let boot = make_boot_sector();
    let fat = Fat::new(&device, &boot);
    let cluster = ClusterReader::new(&device, &boot, &fat);
    let dir = DirectoryReader::new(&cluster);
    let resolver = PathResolver::new(&boot, &dir);
    resolver.resolve(path, 2)
}

#[test]
fn resolve_returns_the_whole_entry() {
    assert_eq!(
        resolve_in_tree("/BOOT.BIN"),
        Ok((
            6,
            Some(DirectoryEntry {
                name: b"BOOT.BIN".to_vec(),
                entry_type: EntryType::File,
                start_cluster: 6,
                size: 100,
            })
        ))
    );
}

#[test]
fn resolve_path_without_segments() {
    assert_eq!(resolve_in_tree(""), Ok((2, None)));
    assert_eq!(resolve_in_tree("/"), Ok((2, None)));
    assert_eq!(resolve_in_tree("///"), Ok((2, None)));
}

#[test]
fn resolve_path_without_segments_from_any_cluster() {
    let img = make_tree();
    let device = MemoryBlockDevice::new(&img);
    let boot = make_boot_sector();
    let fat = Fat::new(&device, &boot);
    let cluster = ClusterReader::new(&device, &boot, &fat);
    let dir = DirectoryReader::new(&cluster);
    let resolver = PathResolver::new(&boot, &dir);

    assert_eq!(resolver.resolve("/", 77), Ok((77, None)));
    assert_eq!(resolver.resolve("", 0), Ok((0, None)));
}

#[test]
fn resolve_nested_path() {
    let (cluster, entry) = resolve_in_tree("/DOCS/NOTES/A.TXT").unwrap();
    let entry = entry.unwrap();

    assert_eq!(cluster, 9);
    assert_eq!(entry.name, b"a.txt");
    assert_eq!(entry.size, 11);
    assert_eq!(entry.entry_type, EntryType::File);
}

#[test]
fn resolve_tolerates_extra_separators() {
    let expected = resolve_in_tree("/DOCS/NOTES").unwrap();

    assert_eq!(expected.0, 4);
    assert_eq!(resolve_in_tree("DOCS/NOTES"), Ok(expected.clone()));
    assert_eq!(resolve_in_tree("//DOCS///NOTES//"), Ok(expected.clone()));
    assert_eq!(resolve_in_tree("/DOCS/NOTES/"), Ok(expected));
}

#[test]
fn resolve_ignores_case() {
    let expected = resolve_in_tree("/DOCS/READ.ME").unwrap();

    assert_eq!(expected.0, 8);
    assert_eq!(resolve_in_tree("/docs/read.me"), Ok(expected.clone()));
    assert_eq!(resolve_in_tree("/Docs/Read.Me"), Ok(expected));
    assert_eq!(resolve_in_tree("/docs/notes/A.TXT").unwrap().0, 9);
    assert_eq!(resolve_in_tree("/docs/notes/a.txt").unwrap().0, 9);
}

#[test]
fn resolve_takes_the_first_match() {
    let (cluster, entry) = resolve_in_tree("/DOCS/READ.ME").unwrap();

    assert_eq!(cluster, 8);
    assert_eq!(entry.unwrap().size, 7);
}

#[test]
fn resolve_compares_whole_names() {
    assert_eq!(resolve_in_tree("/DOC"), Err(PathError::NotFound));
    assert_eq!(resolve_in_tree("/DOCSS"), Err(PathError::NotFound));
    assert_eq!(resolve_in_tree("/BOOT"), Err(PathError::NotFound));
    assert_eq!(resolve_in_tree("/BOOT.BI"), Err(PathError::NotFound));
    assert_eq!(resolve_in_tree("/BOOT.BIN "), Err(PathError::NotFound));
    assert_eq!(resolve_in_tree("/BOOT_BIN"), Err(PathError::NotFound));
}

#[test]
fn resolve_only_folds_ascii_letters() {
    assert_eq!(resolve_in_tree("/BOOT\u{0E}BIN"), Err(PathError::NotFound));
    assert_eq!(resolve_in_tree("/@OCS"), Err(PathError::NotFound));
    assert_eq!(resolve_in_tree("/dOCS").unwrap().0, 3);
}

#[test]
fn resolve_looks_in_the_current_directory_only() {
    assert_eq!(resolve_in_tree("/NOTES"), Err(PathError::NotFound));
    assert_eq!(resolve_in_tree("/DOCS/BOOT.BIN"), Err(PathError::NotFound));
    assert_eq!(resolve_in_tree("/DOCS/.."), Err(PathError::NotFound));
    assert_eq!(resolve_in_tree("/."), Err(PathError::NotFound));
}

#[test]
fn resolve_does_not_descend_into_a_file() {
    assert_eq!(resolve_in_tree("/BOOT.BIN/X"), Err(PathError::NotFound));
    assert_eq!(resolve_in_tree("/DOCS/READ.ME/READ.ME"), Err(PathError::NotFound));
    assert_eq!(resolve_in_tree("/BOOT.BIN/").unwrap().0, 6);
}

#[test]
fn resolve_reports_unreadable_directory() {
    assert_eq!(resolve_in_tree("/GHOST").unwrap().0, 60);
    assert_eq!(
        resolve_in_tree("/GHOST/X"),
        Err(PathError::Cluster(ClusterError::Io(BlockDeviceError::OutOfBounds)))
    );
}

#[test]
fn resolve_from_reserved_cluster() {
    let img = make_tree();
    let device = MemoryBlockDevice::new(&img);
    let boot = make_boot_sector();
    let fat = Fat::new(&device, &boot);
    let cluster = ClusterReader::new(&device, &boot, &fat);
    let dir = DirectoryReader::new(&cluster);
    let resolver = PathResolver::new(&boot, &dir);

    assert_eq!(resolver.resolve("/DOCS", 1), Err(PathError::Cluster(ClusterError::InvalidCluster)));
}

#[test]
fn resolve_from_subdirectory() {
    let img = make_tree();
    let device = MemoryBlockDevice::new(&img);
    let boot = make_boot_sector();
    let fat = Fat::new(&device, &boot);
    let cluster = ClusterReader::new(&device, &boot, &fat);
    let dir = DirectoryReader::new(&cluster);
    let resolver = PathResolver::new(&boot, &dir);

    assert_eq!(resolver.resolve("/NOTES/A.TXT", 3).unwrap().0, 9);
    assert_eq!(resolver.resolve("A.TXT", 4).unwrap().0, 9);
}

#[test]
fn lookup_finds_one_name_in_one_directory() {
    let img = make_tree();
    let device = MemoryBlockDevice::new(&img);
    let boot = make_boot_sector();
    let fat = Fat::new(&device, &boot);
    let cluster = ClusterReader::new(&device, &boot, &fat);
    let dir = DirectoryReader::new(&cluster);
    let resolver = PathResolver::new(&boot, &dir);

    assert_eq!(resolver.lookup(3, b"notes").unwrap().start_cluster, 4);
    assert_eq!(resolver.lookup(3, b"read.me").unwrap().start_cluster, 8);
    assert_eq!(resolver.lookup(3, b"DOCS"), Err(PathError::NotFound));
    assert_eq!(resolver.lookup(3, b""), Err(PathError::NotFound));
    assert_eq!(resolver.lookup(3, b"NOTES/A.TXT"), Err(PathError::NotFound));
}

#[test]
fn root_cluster_comes_from_the_geometry() {
    let img = make_tree();
    let device = MemoryBlockDevice::new(&img);
    let boot = BootSector { root_cluster: 3, ..make_boot_sector() };
    let fat = Fat::new(&device, &boot);
    let cluster = ClusterReader::new(&device, &boot, &fat);
    let dir = DirectoryReader::new(&cluster);
    let resolver = PathResolver::new(&boot, &dir);

    assert_eq!(resolver.root_cluster(), 3);
    assert_eq!(resolver.resolve("/NOTES", resolver.root_cluster()).unwrap().0, 4);
}

#[test]
fn cluster_error_converts_into_path_error() {
    assert_eq!(
        PathError::from(ClusterError::ChainTooLong),
        PathError::Cluster(ClusterError::ChainTooLong)
    );
}

#[test]
fn resolve_bytes_agrees_with_resolve() {
    let img = make_tree();
    let device = MemoryBlockDevice::new(&img);
    let boot = make_boot_sector();
    let fat = Fat::new(&device, &boot);
    let cluster = ClusterReader::new(&device, &boot, &fat);
    let dir = DirectoryReader::new(&cluster);
    let resolver = PathResolver::new(&boot, &dir);

    for path in ["", "/", "/DOCS", "/docs/notes/a.txt", "/BOOT.BIN/X", "/NOPE", "/GHOST/X"] {
        assert_eq!(resolver.resolve_bytes(path.as_bytes(), 2), resolver.resolve(path, 2));
    }
    assert_eq!(resolver.resolve_bytes(b"//DOCS//READ.ME", 2).unwrap().0, 8);
}

#[test]
fn resolve_bytes_compares_other_bytes_exactly() {
    let mut img = make_tree();
    let mut odd = record("CAF", "", 0x20, 5, 1);
    odd[3] = 0xE9;
    img[1024 + 96..1024 + 128].copy_from_slice(&odd);
    let device = MemoryBlockDevice::new(&img);
    let boot = make_boot_sector();
    let fat = Fat::new(&device, &boot);
    let cluster = ClusterReader::new(&device, &boot, &fat);
    let dir = DirectoryReader::new(&cluster);
    let resolver = PathResolver::new(&boot, &dir);

    assert_eq!(resolver.resolve_bytes(b"/caf\xE9", 2).unwrap().0, 5);
    assert_eq!(resolver.resolve_bytes(b"/caf\xC9", 2), Err(PathError::NotFound));
    assert_eq!(resolver.resolve("/caf\u{E9}", 2), Err(PathError::NotFound));
}
