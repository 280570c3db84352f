use lime_bit::intake::{
    choose_save_dir, classify_trimmed, classify_uri, torrent_file_save_dir, torrent_lengths_fit,
    AddError, TorrentMeta, UriSource,
};

fn single_file_torrent(name: &str) -> Vec<u8> {
    let mut v = b"d8:announce17:http://t/announce4:infod6:lengthi5e".to_vec();
    v.extend_from_slice(format!("4:name{}:{}", name.len(), name).as_bytes());
    v.extend_from_slice(b"12:piece lengthi16384e6:pieces20:AAAAAAAAAAAAAAAAAAAAee");
    v
}

fn multi_file_torrent(name: &str) -> Vec<u8> {
    let mut v = b"d4:infod5:filesld6:lengthi5e4:pathl5:a.txteed6:lengthi7e4:pathl3:sub5:b.txteee"
        .to_vec();
    v.extend_from_slice(format!("4:name{}:{}", name.len(), name).as_bytes());
    v.extend_from_slice(b"12:piece lengthi16384e6:pieces20:AAAAAAAAAAAAAAAAAAAAee");
    v
}

#[test]
fn blank_input_is_refused() {
    let e = classify_uri("   ").unwrap_err();
    assert!(matches!(e, AddError::MissingUri));
    assert_eq!(e.message(), "a magnet URI or HTTP(S) URL is required");
}

#[test]
fn links_are_classified_by_prefix() {
    assert!(matches!(classify_uri("  magnet:?xt=1 "), Ok(UriSource::Magnet(u)) if u == "magnet:?xt=1"));
    assert!(matches!(classify_uri("http://a/b"), Ok(UriSource::Http(u)) if u == "http://a/b"));
    assert!(matches!(classify_uri("https://a/b.torrent"), Ok(UriSource::Http(u)) if u == "https://a/b.torrent"));
    assert!(matches!(
        classify_uri(" file:///C:/x/y.torrent "),
        Ok(UriSource::TorrentFile(p)) if p == "C:/x/y.torrent"
    ));
}

#[test]
fn other_input_is_unsupported() {
    let e = classify_uri("ftp://host/file").unwrap_err();
    assert!(matches!(e, AddError::UnsupportedInput));
    assert_eq!(
        e.message(),
        "unsupported input; use magnet:, http://, https://, or a .torrent file path"
    );
    assert!(matches!(classify_uri("notes.txt"), Err(AddError::UnsupportedInput)));
}

#[test]
fn single_file_torrents_get_their_own_folder() {
    let meta = TorrentMeta { name: "My: Movie.".to_string(), single_file: true };
    assert_eq!(choose_save_dir(None, &meta, "/home/me/Downloads"), Some("/home/me/Downloads/My_ Movie".to_string()));
    assert_eq!(
        choose_save_dir(Some("/x".to_string()), &meta, "/home/me/Downloads"),
        Some("/x".to_string())
    );
    assert_eq!(choose_save_dir(None, &meta, "/dl/"), Some("/dl/My_ Movie".to_string()));
    assert_eq!(choose_save_dir(None, &meta, ""), Some("My_ Movie".to_string()));
    let multi = TorrentMeta { name: "Album".to_string(), single_file: false };
    assert_eq!(choose_save_dir(None, &multi, "/home/me/Downloads"), None);
}

#[test]
fn torrent_files_are_parsed_by_gosh_dl() {
    let data = single_file_torrent("report.pdf");
    assert_eq!(
        torrent_file_save_dir(&data, None, "/dl").unwrap(),
        Some("/dl/report.pdf".to_string())
    );
    assert_eq!(
        torrent_file_save_dir(&data, Some("/mine".to_string()), "/dl").unwrap(),
        Some("/mine".to_string())
    );
    let multi = multi_file_torrent("Album");
    assert_eq!(torrent_file_save_dir(&multi, None, "/dl").unwrap(), None);
}

#[test]
fn broken_torrent_files_are_refused() {
    let e = torrent_file_save_dir(b"not bencode", None, "/dl").unwrap_err();
    assert!(matches!(e, AddError::InvalidTorrent(_)));
    let expected = gosh_dl::torrent::Metainfo::parse(b"not bencode").unwrap_err().to_string();
    assert!(!expected.is_empty());
    assert_eq!(e.message(), expected);
}

#[test]
fn classification_follows_the_local_path_lookup() {
    assert!(matches!(
        classify_trimmed("x.torrent/..".to_string(), None),
        Err(AddError::UnsupportedInput)
    ));
    assert!(matches!(
        classify_trimmed("a/b.torrent".to_string(), Some("a/b.torrent".to_string())),
        Ok(UriSource::TorrentFile(p)) if p == "a/b.torrent"
    ));
    assert!(matches!(classify_trimmed(String::new(), None), Err(AddError::MissingUri)));
    assert!(matches!(
        classify_trimmed("magnet:?x".to_string(), None),
        Ok(UriSource::Magnet(u)) if u == "magnet:?x"
    ));
}

#[test]
fn declared_lengths_must_fit_together() {
    assert!(torrent_lengths_fit(&single_file_torrent("a.txt")));
    assert!(torrent_lengths_fit(&multi_file_torrent("Album")));
    assert!(torrent_lengths_fit(b"not bencode"));
    let huge = "9223372036854775807";
    let mut data = b"d4:infod5:filesl".to_vec();
    for name in ["a", "b", "c"] {
        data.extend_from_slice(format!("d6:lengthi{huge}e4:pathl1:{name}ee").as_bytes());
    }
    data.extend_from_slice(b"e4:name1:x12:piece lengthi16384e6:pieces0:ee");
    assert!(!torrent_lengths_fit(&data));
    assert!(torrent_lengths_fit(b"6:lengthi99999999999999999999999e"));
    assert!(torrent_lengths_fit(b"6:lengthi18446744073709551615e"));
    assert!(torrent_lengths_fit(
        b"6:lengthi9223372036854775807e6:lengthi9223372036854775807e6:lengthi1e"
    ));
    assert!(!torrent_lengths_fit(
        b"6:lengthi9223372036854775807e6:lengthi9223372036854775807e6:lengthi2e"
    ));
}

#[test]
fn lengths_written_inside_strings_do_not_count() {
    let name = "6:lengthi9223372036854775807e".repeat(3);
    let data = multi_file_torrent(&name);
    assert!(torrent_lengths_fit(&data));
    assert_eq!(torrent_file_save_dir(&data, None, "/dl").unwrap(), None);
    let single = single_file_torrent(&":lengthi99999999999999999999999".repeat(4));
    assert!(torrent_lengths_fit(&single));
    assert!(torrent_file_save_dir(&single, None, "/dl").unwrap().is_some());
    assert!(torrent_lengths_fit(
        b"7:lengthxi9223372036854775807e7:lengthxi9223372036854775807e7:lengthxi9e"
    ));
    assert!(!torrent_lengths_fit(
        b"d+6:lengthi9223372036854775807e+6:lengthi9223372036854775807e+6:lengthi9ee"
    ));
}

#[test]
fn declared_lengths_with_a_plus_sign_count_too() {
    let huge = "+9223372036854775807";
    let mut data = b"d4:infod5:filesl".to_vec();
    for name in ["a", "b", "c"] {
        data.extend_from_slice(format!("d6:lengthi{huge}e4:pathl1:{name}ee").as_bytes());
    }
    data.extend_from_slice(b"e4:name1:x12:piece lengthi16384e6:pieces0:ee");
    assert!(!torrent_lengths_fit(&data));
    assert!(torrent_lengths_fit(b"6:lengthi+5e6:lengthi+7e"));
    assert!(!torrent_lengths_fit(
        b"6:lengthi+9223372036854775807e6:lengthi+9223372036854775807e6:lengthi+2e"
    ));
}

#[test]
fn pasted_windows_paths_are_torrent_files() {
    assert!(matches!(
        classify_uri("  C:\\Users\\me\\x.torrent \n"),
        Ok(UriSource::TorrentFile(p)) if p == "C:\\Users\\me\\x.torrent"
    ));
    assert!(matches!(classify_uri("C:\\Users\\me\\notes"), Err(AddError::UnsupportedInput)));
}
