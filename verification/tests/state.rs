use lime_bit::state::{state_name, to_info, StatusSnapshot, TransferState};

fn snapshot(files: Option<Vec<&str>>) -> StatusSnapshot {
    StatusSnapshot {
        gid: "0123456789abcdef".to_string(),
        name: "Album".to_string(),
        state: TransferState::Downloading,
        completed_size: 10,
        total_size: Some(20),
        download_speed: 3,
        upload_speed: 4,
        peers: 5,
        connections: 6,
        seeders: 7,
        eta_seconds: Some(8),
        save_dir: "/dl".to_string(),
        torrent_files: files.map(|f| f.into_iter().map(String::from).collect()),
    }
}

#[test]
fn states_are_named_in_lower_case() {
    assert_eq!(state_name(&TransferState::Queued), "queued");
    assert_eq!(state_name(&TransferState::Connecting), "connecting");
    assert_eq!(state_name(&TransferState::Downloading), "downloading");
    assert_eq!(state_name(&TransferState::Seeding), "seeding");
    assert_eq!(state_name(&TransferState::Paused), "paused");
    assert_eq!(state_name(&TransferState::Completed), "completed");
    assert_eq!(
        state_name(&TransferState::Error {
            kind: "network".to_string(),
            message: "timed out".to_string(),
            retryable: true
        }),
        "error: timed out"
    );
}

#[test]
fn rows_copy_the_status() {
    let info = to_info(snapshot(None));
    assert_eq!(info.id, "0123456789abcdef");
    assert_eq!(info.name, "Album");
    assert_eq!(info.state, "downloading");
    assert_eq!(info.completed_size, 10);
    assert_eq!(info.total_size, Some(20));
    assert_eq!((info.download_speed, info.upload_speed), (3, 4));
    assert_eq!((info.peers, info.connections, info.seeders), (5, 6, 7));
    assert_eq!(info.eta_seconds, Some(8));
    assert_eq!(info.location, "/dl");
}

#[test]
fn multi_file_torrents_live_in_their_named_folder() {
    assert_eq!(to_info(snapshot(Some(vec!["a.txt", "b.txt"]))).location, "/dl/Album");
    assert_eq!(to_info(snapshot(Some(vec!["sub/a.txt"]))).location, "/dl/Album");
    assert_eq!(to_info(snapshot(Some(vec!["a.txt"]))).location, "/dl");
    assert_eq!(to_info(snapshot(Some(vec![]))).location, "/dl");
}

#[test]
fn a_name_with_a_colon_still_names_the_folder() {
    let mut status = snapshot(Some(vec!["a.txt", "b.txt"]));
    status.name = "Album: Live".to_string();
    assert_eq!(to_info(status).location, "/dl/Album: Live");
}
