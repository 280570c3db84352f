use lime_bit::paths::{is_torrent_path, local_torrent_path, pick_torrent_path, safe_folder_name};
use std::path::{Path, PathBuf};

#[test]
fn recognizes_torrent_extension_case_insensitively() {
    assert_eq!(
        local_torrent_path("C:/Downloads/example.TORRENT").map(PathBuf::from),
        Some(Path::new("C:/Downloads/example.TORRENT").to_path_buf())
    );
}

#[test]
fn recognizes_file_uri_torrent_path() {
    assert_eq!(
        local_torrent_path("file:///C:/Downloads/example.torrent").map(PathBuf::from),
        Some(Path::new("C:/Downloads/example.torrent").to_path_buf())
    );
}

#[test]
fn does_not_treat_remote_urls_as_local_files() {
    assert_eq!(
        local_torrent_path("https://example.test/file.torrent").map(PathBuf::from),
        None
    );
}

#[test]
fn magnet_and_plain_http_are_never_local() {
    assert_eq!(local_torrent_path("magnet:?xt=urn:btih:abc.torrent"), None);
    assert_eq!(local_torrent_path("http://host/x.torrent"), None);
}

#[test]
fn file_uri_without_drive_letter_keeps_its_slash() {
    assert_eq!(
        local_torrent_path("file:///home/me/linux.torrent"),
        Some("/home/me/linux.torrent".to_string())
    );
}

#[test]
fn other_extensions_are_not_torrents() {
    assert_eq!(local_torrent_path("C:/Downloads/example.txt"), None);
    assert_eq!(local_torrent_path("C:/Downloads/torrent"), None);
    assert_eq!(local_torrent_path("notes.torrents"), None);
}

#[test]
fn torrent_path_check_uses_the_extension() {
    assert!(is_torrent_path("/tmp/a/b.Torrent"));
    assert!(!is_torrent_path("/tmp/a/b.torrent.part"));
    assert!(!is_torrent_path("/tmp/a/torrent"));
}

#[test]
fn picking_a_path_follows_the_reported_extension() {
    assert_eq!(
        pick_torrent_path("x".to_string(), Some("TorRent".to_string())),
        Some("x".to_string())
    );
    assert_eq!(pick_torrent_path("x".to_string(), Some("txt".to_string())), None);
    assert_eq!(pick_torrent_path("x".to_string(), None), None);
}

#[test]
fn folder_names_lose_reserved_characters() {
    assert_eq!(safe_folder_name("a<b>c:d\"e/f\\g|h?i*j"), "a_b_c_d_e_f_g_h_i_j");
}

#[test]
fn folder_names_are_trimmed_and_lose_trailing_dots() {
    assert_eq!(safe_folder_name("  Ubuntu 24.04 ISO...  "), "Ubuntu 24.04 ISO");
    assert_eq!(safe_folder_name("\u{3000}name\u{a0}"), "name");
}

#[test]
fn empty_folder_names_become_download() {
    assert_eq!(safe_folder_name(""), "download");
    assert_eq!(safe_folder_name("  ... "), "download");
    assert_eq!(safe_folder_name(" \t "), "download");
}

#[test]
fn folder_name_may_end_with_space_after_dots_go() {
    // the dots are stripped after trimming, so a space before them stays
    assert_eq!(safe_folder_name("a ."), "a ");
}

#[test]
fn windows_paths_with_backslashes_are_recognized() {
    assert!(is_torrent_path(r"C:\Users\me\x.torrent"));
    assert!(is_torrent_path(r"C:\Users\me\Movie.TORRENT"));
    assert!(is_torrent_path(r"D:\a.b\c/x.torrent"));
    assert!(!is_torrent_path(r"C:\Users\me\x.txt"));
    assert!(!is_torrent_path(r"C:\dir.torrent\readme"));
    assert_eq!(
        local_torrent_path(r"C:\Users\me\x.torrent"),
        Some(r"C:\Users\me\x.torrent".to_string())
    );
    assert_eq!(local_torrent_path(r"C:\dir.torrent\readme"), None);
}
