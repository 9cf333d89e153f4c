//! Path normalization, the physical naming scheme, and the small
//! utilities around them.

use vpk2::dirs::{data_dir, log_dir};
use vpk2::util::{clean_path, slice_to_array};
use vpk2::vpk::Vpk2;

#[test]
fn clean_path_strips_drive_and_separators() {
    assert_eq!(clean_path("C:\\foo\\bar\\"), "/foo/bar");
}

#[test]
fn clean_path_keeps_plain_paths() {
    assert_eq!(clean_path("textures/wall.png"), "textures/wall.png");
}

#[test]
fn clean_path_drops_one_trailing_slash() {
    assert_eq!(clean_path("sounds/"), "sounds");
    assert_eq!(clean_path(""), "");
}

#[test]
fn slice_to_array_needs_the_exact_length() {
    let bytes = [1u8, 2, 3, 4];
    let ok: Result<&[u8; 4], _> = slice_to_array(&bytes);
    assert_eq!(ok.unwrap(), &[1, 2, 3, 4]);
    let too_short: Result<&[u8; 5], _> = slice_to_array(&bytes);
    assert!(too_short.is_err());
}

#[test]
fn directory_and_chunk_paths_follow_the_naming_scheme() {
    let vpk = Vpk2::create("assets/pak");
    assert_eq!(vpk.get_directory_path(), "assets/pak_dir.vpk");
    assert_eq!(vpk.get_archive_path(Some(0)), "assets/pak_000.vpk");
    assert_eq!(vpk.get_archive_path(Some(7)), "assets/pak_007.vpk");
    assert_eq!(vpk.get_archive_path(Some(1234)), "assets/pak_1234.vpk");
    assert_eq!(vpk.get_archive_path(None), "assets/pak_000.vpk");
}

#[test]
fn chunk_paths_strip_an_existing_extension() {
    let vpk = Vpk2::create("pak.vpk");
    assert_eq!(vpk.get_directory_path(), "pak_dir.vpk");
}

#[test]
fn base_path_comes_back_from_a_directory_file_name() {
    assert_eq!(Vpk2::get_base_path(&String::from("pak01_dir.vpk")), "pak01.vpk");
}

#[test]
fn data_and_log_dirs_nest_under_the_base() {
    assert_eq!(data_dir("/home/u/.local/share", "game"), "/home/u/.local/share/game");
    assert_eq!(log_dir("/home/u/.local/share", "game"), "/home/u/.local/share/game/logs");
}
