//! The shared file-access vocabulary: kinds, permissions, metadata and
//! listing entries.

use vpk2::fs::{DirEntry, FileKind, FileType, Metadata, Permissions, StdFileSystem};

#[test]
fn file_type_reports_its_kind() {
    assert!(FileType(FileKind::Directory).is_dir());
    assert!(!FileType(FileKind::Directory).is_file());
    assert!(FileType(FileKind::Regular).is_file());
    assert!(FileType(FileKind::Symlink).is_symlink());
    assert!(!FileType(FileKind::Other).is_file());
}

#[test]
fn permissions_hold_one_readonly_bit() {
    let mut p = Permissions(false);
    assert!(!p.readonly());
    p.set_readonly(true);
    assert!(p.readonly());
}

#[test]
fn metadata_accessors_echo_the_fields() {
    let md = Metadata::new(FileType(FileKind::Regular), false, true, false, 2048, Permissions(false));
    assert!(md.is_file());
    assert!(!md.is_dir());
    assert!(!md.is_symlink());
    assert_eq!(md.len(), 2048);
    assert!(!md.permissions().readonly());
    assert!(md.file_type().is_file());
}

#[test]
fn dir_entry_file_name_is_the_last_component() {
    let md = Metadata::new(FileType(FileKind::Regular), false, true, false, 1, Permissions(false));
    let e = DirEntry::new(String::from("textures/wall.png"), md, FileType(FileKind::Regular));
    assert_eq!(e.file_name(), "wall.png");
    assert_eq!(e.path(), "textures/wall.png");
    let flat = DirEntry::new(String::from("readme"), md, FileType(FileKind::Regular));
    assert_eq!(flat.file_name(), "readme");
}

#[test]
fn std_file_system_builds() {
    let _fs = StdFileSystem::new();
}
