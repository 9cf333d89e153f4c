//! The archive itself: writing, saving, reloading, reading back, the
//! chunk ceiling, and the operations the format cannot support.

use std::collections::HashMap;
use vpk2::vpk::{extract_range, Vpk2, VpkError};


/// An in-memory stand-in for the chunk files on disk: append on write,
/// read whole on read, exactly as the shell around the crate does.
struct ChunkStore {
    chunks: HashMap<String, Vec<u8>>,
}

impl ChunkStore {
    fn new() -> ChunkStore {
        ChunkStore { chunks: HashMap::new() }
    }

    fn append(&mut self, path: String, bytes: &[u8]) {
        self.chunks.entry(path).or_insert_with(Vec::new).extend_from_slice(bytes);
    }

    fn read(&self, path: &str) -> &[u8] {
        self.chunks.get(path).map(|v| v.as_slice()).unwrap_or(&[])
    }
}

fn store_blob(vpk: &mut Vpk2, store: &mut ChunkStore, path: &str, bytes: &[u8]) {
    let chunk = vpk.write(path, bytes).expect("write should succeed on a bound archive");
    store.append(chunk, bytes);
}

fn read_blob(vpk: &Vpk2, store: &ChunkStore, path: &str) -> Result<Vec<u8>, VpkError> {
    let plan = vpk.read_plan(path)?;
    extract_range(store.read(&plan.archive_path), plan.offset, plan.length)
}

#[test]
fn pack_save_reload_read_back() {
    let wall: Vec<u8> = (0..1024u32).map(|i| (i % 251) as u8).collect();
    let click: Vec<u8> = (0..2048u32).map(|i| (i % 13) as u8).collect();

    let mut store = ChunkStore::new();
    let mut vpk = Vpk2::create("pak");
    store_blob(&mut vpk, &mut store, "textures/wall.png", &wall);
    store_blob(&mut vpk, &mut store, "sounds/click.wav", &click);

    let (dir_path, bytes) = vpk.save_to_bytes("").expect("a bound archive saves");
    assert_eq!(dir_path, "pak_dir.vpk");

    let reloaded = Vpk2::from_bytes("pak", &bytes).expect("saved bytes load back");
    assert_eq!(read_blob(&reloaded, &store, "textures/wall.png").unwrap(), wall);
    assert_eq!(read_blob(&reloaded, &store, "sounds/click.wav").unwrap(), click);

    let mut listing = reloaded.read_dir("");
    let mut names = Vec::new();
    while let Some(entry) = listing.next() {
        names.push(entry.path());
    }
    assert_eq!(names.len(), 2);
    assert!(names.contains(&String::from("textures/wall.png")));
    assert!(names.contains(&String::from("sounds/click.wav")));

    let md = reloaded.metadata("sounds/click.wav").unwrap();
    assert_eq!(md.len(), 2048);
    assert!(md.is_file());
}

#[test]
fn duplicate_writes_leave_one_entry_last_write_wins() {
    let mut store = ChunkStore::new();
    let mut vpk = Vpk2::create("pak");
    store_blob(&mut vpk, &mut store, "a/b.txt", b"first");
    store_blob(&mut vpk, &mut store, "a/b.txt", b"second!");

    let (_, bytes) = vpk.save_to_bytes("").unwrap();
    let reloaded = Vpk2::from_bytes("pak", &bytes).unwrap();

    let mut listing = reloaded.read_dir("");
    let mut count = 0;
    while listing.next().is_some() {
        count += 1;
    }
    assert_eq!(count, 1);
    assert_eq!(read_blob(&reloaded, &store, "a/b.txt").unwrap(), b"second!");
}

#[test]
fn save_of_empty_archive_has_the_fixed_layout() {
    let mut vpk = Vpk2::create("pak");
    let (_, bytes) = vpk.save_to_bytes("").unwrap();
    // Header, one tree-terminating NUL, the 48-byte checksum record.
    assert_eq!(bytes.len(), 28 + 1 + 48);
    // The signature, little endian.
    assert_eq!(&bytes[0..4], &[0x34, 0x12, 0xAA, 0x55]);
    // The version.
    assert_eq!(&bytes[4..8], &[2, 0, 0, 0]);
    // The tree size.
    assert_eq!(&bytes[8..12], &[1, 0, 0, 0]);
    assert_eq!(bytes[28], 0);
}

#[test]
fn saved_tree_groups_extension_path_name() {
    let mut store = ChunkStore::new();
    let mut vpk = Vpk2::create("pak");
    store_blob(&mut vpk, &mut store, "a/b.c", b"xyz");
    let (_, bytes) = vpk.save_to_bytes("").unwrap();
    // "c\0" "a\0" "b\0" entry(18) NUL NUL NUL after the header.
    assert_eq!(bytes.len() - 28 - 48, 27);
    assert_eq!(&bytes[28..30], b"c\0");
    assert_eq!(&bytes[30..32], b"a\0");
    assert_eq!(&bytes[32..34], b"b\0");
    // The entry ends in the terminator, then the three closing NULs.
    assert_eq!(&bytes[50..52], &[0xFF, 0xFF]);
    assert_eq!(&bytes[52..55], &[0, 0, 0]);
}

#[test]
fn foreign_file_is_rejected_before_any_entry() {
    let mut bytes = vec![0u8; 128];
    bytes[0] = 0x33; // not the signature
    assert!(matches!(Vpk2::from_bytes("pak", &bytes), Err(VpkError::FormatError)));
}

#[test]
fn wrong_version_is_rejected() {
    let mut vpk = Vpk2::create("pak");
    let (_, mut bytes) = vpk.save_to_bytes("").unwrap();
    bytes[4] = 3;
    assert!(matches!(Vpk2::from_bytes("pak", &bytes), Err(VpkError::FormatError)));
}

#[test]
fn truncated_directory_is_rejected() {
    assert!(matches!(Vpk2::from_bytes("pak", &[0x34, 0x12, 0xAA, 0x55]), Err(VpkError::FormatError)));
    let mut vpk = Vpk2::create("pak");
    let (_, bytes) = vpk.save_to_bytes("").unwrap();
    // Cutting the tree terminator off leaves an unterminated tree.
    assert!(matches!(Vpk2::from_bytes("pak", &bytes[0..28]), Err(VpkError::FormatError)));
}

#[test]
fn chunk_ceiling_advances_once_and_resets_offset() {
    let mut store = ChunkStore::new();
    let mut vpk = Vpk2::create("pak");
    store_blob(&mut vpk, &mut store, "small.bin", &[1u8; 1000]);
    let plan_small = vpk.read_plan("small.bin").unwrap();
    assert_eq!(plan_small.archive_path, "pak_000.vpk");
    assert_eq!(plan_small.offset, 0);

    // This blob does not fit in the 209715200 bytes that remain free in
    // chunk zero, so the cursor rolls to chunk one, offset zero.
    let big = vec![0u8; 209_715_200];
    let chunk = vpk.write("big.bin", &big).unwrap();
    assert_eq!(chunk, "pak_001.vpk");
    let plan_big = vpk.read_plan("big.bin").unwrap();
    assert_eq!(plan_big.offset, 0);
    assert_eq!(plan_big.length, 209_715_200);

    // Chunk one is filled to the ceiling exactly, so the next blob,
    // however small, rolls once more and starts chunk two at offset zero.
    let chunk2 = vpk.write("after.bin", &[2u8; 10]).unwrap();
    assert_eq!(chunk2, "pak_002.vpk");
    let plan_after = vpk.read_plan("after.bin").unwrap();
    assert_eq!(plan_after.offset, 0);

    // A blob that does fit in what remains stays in its chunk.
    let chunk3 = vpk.write("fits.bin", &[3u8; 5]).unwrap();
    assert_eq!(chunk3, "pak_002.vpk");
    let plan_fits = vpk.read_plan("fits.bin").unwrap();
    assert_eq!(plan_fits.offset, 10);
}

#[test]
fn unsupported_operations_never_partially_succeed() {
    let mut store = ChunkStore::new();
    let mut vpk = Vpk2::create("pak");
    store_blob(&mut vpk, &mut store, "kept.txt", b"kept");

    assert_eq!(vpk.create_dir("d"), Err(VpkError::Unsupported));
    assert_eq!(vpk.create_dir_all("d/e"), Err(VpkError::Unsupported));
    assert_eq!(vpk.remove_dir("d"), Err(VpkError::Unsupported));
    assert_eq!(vpk.remove_dir_all("d"), Err(VpkError::Unsupported));
    assert_eq!(
        vpk.set_permissions("kept.txt", vpk2::fs::Permissions(true)),
        Err(VpkError::Unsupported)
    );
    assert_eq!(vpk.read_link("kept.txt"), Err(VpkError::Unsupported));

    // Nothing changed.
    assert_eq!(vpk.try_exists("kept.txt"), Ok(true));
    assert_eq!(read_blob(&vpk, &store, "kept.txt").unwrap(), b"kept");
}

#[test]
fn write_before_binding_is_permission_denied() {
    let mut vpk = Vpk2::create("");
    assert_eq!(vpk.write("a.txt", b"data"), Err(VpkError::PermissionDenied));
    assert_eq!(vpk.save_to_bytes(""), None);
}

#[test]
fn save_can_bind_a_new_path() {
    let mut vpk = Vpk2::create("");
    let (dir_path, _) = vpk.save_to_bytes("out/archive").unwrap();
    assert_eq!(dir_path, "out/archive_dir.vpk");
    // Bound now: writes are accepted.
    assert!(vpk.write("a.txt", b"data").is_ok());
}

#[test]
fn remove_rename_copy_are_index_level() {
    let mut store = ChunkStore::new();
    let mut vpk = Vpk2::create("pak");
    store_blob(&mut vpk, &mut store, "one.txt", b"one");

    vpk.copy("one.txt", "alias.txt").unwrap();
    assert_eq!(read_blob(&vpk, &store, "alias.txt").unwrap(), b"one");

    vpk.rename("alias.txt", "renamed.txt").unwrap();
    assert_eq!(vpk.try_exists("alias.txt"), Ok(false));
    assert_eq!(read_blob(&vpk, &store, "renamed.txt").unwrap(), b"one");

    vpk.remove_file("renamed.txt").unwrap();
    assert_eq!(vpk.remove_file("renamed.txt"), Err(VpkError::NotFound));
    assert_eq!(vpk.rename("missing", "x"), Err(VpkError::NotFound));
    assert_eq!(vpk.copy("missing", "x"), Err(VpkError::NotFound));
    assert_eq!(vpk.read_plan("renamed.txt").unwrap_err(), VpkError::NotFound);

    vpk.hard_link("one.txt", "hard.txt").unwrap();
    vpk.soft_link("one.txt", "soft.txt").unwrap();
    assert_eq!(read_blob(&vpk, &store, "hard.txt").unwrap(), b"one");
    assert_eq!(read_blob(&vpk, &store, "soft.txt").unwrap(), b"one");
}

#[test]
fn read_past_chunk_end_is_not_found() {
    assert_eq!(extract_range(&[1, 2, 3], 1, 2).unwrap(), vec![2, 3]);
    assert_eq!(extract_range(&[1, 2, 3], 2, 2), Err(VpkError::NotFound));
}

#[test]
fn write_normalizes_stored_paths() {
    let mut store = ChunkStore::new();
    let mut vpk = Vpk2::create("pak");
    store_blob(&mut vpk, &mut store, "C:\\textures\\wall.png", b"px");
    assert_eq!(vpk.try_exists("textures/wall.png"), Ok(true));
    store_blob(&mut vpk, &mut store, "/lead/slash.txt", b"s");
    assert_eq!(vpk.try_exists("lead/slash.txt"), Ok(true));
}

#[test]
fn canonicalize_prefixes_the_archive_path() {
    let vpk = Vpk2::create("pak");
    assert_eq!(vpk.canonicalize("a/b.txt").unwrap(), "pak.vpk/a/b.txt");
}

#[test]
fn metadata_of_missing_path_is_not_found() {
    let vpk = Vpk2::create("pak");
    assert_eq!(vpk.metadata("none").unwrap_err(), VpkError::NotFound);
    assert_eq!(vpk.symlink_metadata("none").unwrap_err(), VpkError::NotFound);
}

#[test]
fn entries_carry_the_blob_checksum() {
    let mut store = ChunkStore::new();
    let mut vpk = Vpk2::create("pak");
    store_blob(&mut vpk, &mut store, "n.bin", b"123456789");
    let (_, bytes) = vpk.save_to_bytes("").unwrap();
    let reloaded = Vpk2::from_bytes("pak", &bytes).unwrap();
    // The entry record begins right after "bin\0 \0n\0" in the tree; its
    // first field is the checksum of the blob.
    let crc = vpk2::crc::valve_crc32(b"123456789");
    let entry_start = 28 + 4 + 2 + 2;
    let stored = u32::from_le_bytes([
        bytes[entry_start],
        bytes[entry_start + 1],
        bytes[entry_start + 2],
        bytes[entry_start + 3],
    ]);
    assert_eq!(stored, crc);
    assert!(reloaded.try_exists("n.bin").unwrap());
}

#[test]
fn stored_bytes_read_back_as_text() {
    assert_eq!(vpk2::vpk::decode_text(b"hello".to_vec()).unwrap(), "hello");
    assert_eq!(vpk2::vpk::decode_text(vec![0xFF, 0xFE]), Err(VpkError::InvalidData));
}

#[test]
fn default_archive_is_unbound_and_empty() {
    let vpk = Vpk2::default();
    assert_eq!(vpk.try_exists("anything"), Ok(false));
    let mut listing = vpk.read_dir("");
    assert!(listing.next().is_none());
}
