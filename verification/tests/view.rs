use lime_bit::state::AppCommand;
use lime_bit::view::{
    row_command, toolbar_command, RowAction, ToolbarAction, action_tone, button_tone, eta_suffix, size_text, status_line, window_action, window_glyph,
    ButtonTone, WindowAction, DANGER, LIME, MUTED,
};

#[test]
fn row_texts() {
    assert_eq!(eta_suffix(Some(42)), " · ETA 42s");
    assert_eq!(eta_suffix(None), "");
    assert_eq!(size_text("1.0 KiB", Some("2.0 MiB")), "1.0 KiB / 2.0 MiB");
    assert_eq!(size_text("17 B", None), "17 B downloaded");
    assert_eq!(
        status_line("downloading", "1 B / 2 B", 3, 2, 1, Some(60)),
        "downloading · 1 B / 2 B · 3 peers · 2 connected · 1 seeders · ETA 60s"
    );
    assert_eq!(
        status_line("paused", "0 B downloaded", 0, 0, 0, None),
        "paused · 0 B downloaded · 0 peers · 0 connected · 0 seeders"
    );
}

#[test]
fn button_tones() {
    assert_eq!(button_tone(LIME), ButtonTone::Success);
    assert_eq!(button_tone(DANGER), ButtonTone::Danger);
    assert_eq!(button_tone(MUTED), ButtonTone::Secondary);
    assert_eq!(button_tone(0xf2c879), ButtonTone::Warning);
    assert_eq!(action_tone("REMOVE"), ButtonTone::Danger);
    assert_eq!(action_tone("PAUSE"), ButtonTone::Warning);
    assert_eq!(action_tone("RESUME"), ButtonTone::Success);
    assert_eq!(action_tone("VERIFY"), ButtonTone::Info);
    assert_eq!(action_tone("OPEN LOCATION"), ButtonTone::Secondary);
    assert_eq!(action_tone("REPAIR"), ButtonTone::Secondary);
}

#[test]
fn window_controls() {
    assert_eq!(window_action("MIN"), WindowAction::Minimize);
    assert_eq!(window_action("MAX"), WindowAction::Zoom);
    assert_eq!(window_action("X"), WindowAction::Close);
    assert_eq!(window_action("?"), WindowAction::Nothing);
    assert_eq!(window_glyph("MIN"), "—");
    assert_eq!(window_glyph("MAX"), "⛶");
    assert_eq!(window_glyph("X"), "×");
    assert_eq!(window_glyph("other"), "?");
}

fn info() -> lime_bit::state::TorrentInfo {
    lime_bit::state::TorrentInfo {
        id: "00ff".to_string(),
        name: "n".to_string(),
        state: "paused".to_string(),
        completed_size: 0,
        total_size: None,
        download_speed: 0,
        upload_speed: 0,
        peers: 0,
        connections: 0,
        seeders: 0,
        eta_seconds: None,
        location: "/dl/n".to_string(),
    }
}

#[test]
fn row_buttons_send_their_commands() {
    let t = info();
    assert!(matches!(row_command(RowAction::Pause, &t), AppCommand::Pause(id) if id == "00ff"));
    assert!(matches!(row_command(RowAction::Resume, &t), AppCommand::Resume(id) if id == "00ff"));
    assert!(matches!(row_command(RowAction::Verify, &t), AppCommand::Verify(id) if id == "00ff"));
    assert!(matches!(row_command(RowAction::Repair, &t), AppCommand::Repair(id) if id == "00ff"));
    assert!(matches!(row_command(RowAction::OpenLocation, &t), AppCommand::OpenLocation(p) if p == "/dl/n"));
    assert!(matches!(
        row_command(RowAction::Remove, &t),
        AppCommand::Cancel { id, delete_files: false } if id == "00ff"
    ));
}

#[test]
fn only_delete_data_deletes_files() {
    assert!(matches!(toolbar_command(ToolbarAction::PauseAll), AppCommand::PauseAll));
    assert!(matches!(toolbar_command(ToolbarAction::ResumeAll), AppCommand::ResumeAll));
    assert!(matches!(
        toolbar_command(ToolbarAction::ClearCacheKeepFiles),
        AppCommand::CancelAll { delete_files: false }
    ));
    assert!(matches!(
        toolbar_command(ToolbarAction::DeleteData),
        AppCommand::CancelAll { delete_files: true }
    ));
}
