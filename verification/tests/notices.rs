use lime_bit::notices::{notice, Outcome};

#[test]
fn notices_for_single_downloads() {
    assert_eq!(notice(&Outcome::Adding { uri: "magnet:?x".into() }), "Adding magnet:?x…");
    assert_eq!(notice(&Outcome::Paused { id: "ab".into() }), "Paused ab");
    assert_eq!(notice(&Outcome::Resumed { id: "ab".into() }), "Resumed ab");
    assert_eq!(notice(&Outcome::Removing { id: "ab".into() }), "Removing ab…");
    assert_eq!(notice(&Outcome::Removed { id: "ab".into() }), "Removed ab");
    assert_eq!(
        notice(&Outcome::RemoveFailed { id: "ab".into(), error: "gone".into() }),
        "Remove failed for ab: gone"
    );
    assert_eq!(
        notice(&Outcome::RemoveTaskFailed { id: "ab".into(), error: "panic".into() }),
        "Remove task failed for ab: panic"
    );
    assert_eq!(notice(&Outcome::Opened { path: "/dl/x".into() }), "Opened /dl/x");
    assert_eq!(notice(&Outcome::GlobalLimitsApplied), "Global speed limits applied");
}

#[test]
fn notices_for_all_downloads() {
    assert_eq!(notice(&Outcome::PausedAll { count: 3 }), "Paused 3 downloads");
    assert_eq!(notice(&Outcome::ResumedAll { count: 0 }), "Resumed 0 downloads");
    assert_eq!(
        notice(&Outcome::ClearedAll { count: 12, delete_files: true }),
        "Deleted data for 12 downloads"
    );
    assert_eq!(
        notice(&Outcome::ClearedAll { count: 1, delete_files: false }),
        "Cleared torrent cache for 1 downloads; files kept"
    );
}
