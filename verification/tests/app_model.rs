use lime_bit::app_model::{transfer_summary, AppModel, CONSOLE_LINES};
use lime_bit::state::{AppEvent, TorrentInfo};

fn row(id: &str, state: &str, down: u64, up: u64) -> TorrentInfo {
    TorrentInfo {
        id: id.to_string(),
        name: format!("name-{id}"),
        state: state.to_string(),
        completed_size: 0,
        total_size: None,
        download_speed: down,
        upload_speed: up,
        peers: 0,
        connections: 0,
        seeders: 0,
        eta_seconds: None,
        location: String::new(),
    }
}

fn ids(m: &AppModel) -> Vec<String> {
    m.torrents().iter().map(|t| t.id.clone()).collect()
}

#[test]
fn new_window_is_empty() {
    let m = AppModel::new();
    assert!(m.torrents().is_empty());
    assert!(m.backend_logs().is_empty());
    assert_eq!(m.notice(), &None);
    assert!(!m.options_open());
    assert!(!m.console_open());
}

#[test]
fn snapshot_replaces_rows_and_update_replaces_or_adds() {
    let mut m = AppModel::new();
    m.apply_event(AppEvent::TorrentSnapshot(vec![row("a", "queued", 0, 0), row("b", "paused", 0, 0)]));
    assert_eq!(ids(&m), vec!["a", "b"]);
    m.apply_event(AppEvent::TorrentUpdated(row("b", "downloading", 5, 0)));
    assert_eq!(ids(&m), vec!["a", "b"]);
    assert_eq!(m.torrents()[1].state, "downloading");
    m.apply_event(AppEvent::TorrentUpdated(row("c", "queued", 0, 0)));
    assert_eq!(ids(&m), vec!["a", "b", "c"]);
}

#[test]
fn removal_drops_rows_and_clears_the_notice() {
    let mut m = AppModel::new();
    m.apply_event(AppEvent::TorrentSnapshot(vec![row("a", "queued", 0, 0), row("b", "queued", 0, 0)]));
    m.apply_event(AppEvent::Error("Adding x…".to_string()));
    assert_eq!(m.notice(), &Some("Adding x…".to_string()));
    m.apply_event(AppEvent::TorrentRemoved("a".to_string()));
    assert_eq!(ids(&m), vec!["b"]);
    assert_eq!(m.notice(), &None);
}

#[test]
fn console_keeps_the_last_two_thousand_lines() {
    let mut m = AppModel::new();
    for i in 0..(CONSOLE_LINES + 5) {
        m.apply_event(AppEvent::BackendLog(format!("line {i}")));
    }
    assert_eq!(m.backend_logs().len(), 2000);
    assert_eq!(m.backend_logs()[0], "line 5");
    assert_eq!(m.backend_logs()[1999], format!("line {}", CONSOLE_LINES + 4));
}

#[test]
fn panels_toggle() {
    let mut m = AppModel::new();
    m.toggle_console();
    assert!(m.console_open());
    assert!(!m.options_open());
    m.toggle_options();
    m.toggle_console();
    assert!(!m.console_open());
    assert!(m.options_open());
}

#[test]
fn toolbar_totals() {
    let rows = vec![
        row("a", "downloading", 1_000_000, 10),
        row("b", "seeding", 0, 20),
        row("c", "queued", 0, 0),
        row("d", "connecting", u64::MAX, 0),
        row("e", "paused", 0, 0),
        row("f", "error: x", 0, 0),
    ];
    let s = transfer_summary(&rows);
    assert_eq!(s.active, 3);
    assert_eq!(s.queued, 1);
    assert_eq!(s.download_speed, 1_000_000u128 + u64::MAX as u128);
    assert_eq!(s.upload_speed, 30);
}
