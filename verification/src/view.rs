//! Decisions of the window's widgets: the text of a download row, the look
//! of each button, and what the window controls show and do.

use vstd::prelude::*;
use crate::state::{AppCommand, TorrentInfo};
use crate::text::{decimal, owned, push_decimal, push_str, str_equal};

verus! {

/// The `ETA` part of a row's status line.
pub open spec fn eta_text(eta: Option<u64>) -> Seq<char> {
    match eta {
        Some(e) => " · ETA "@ + decimal(e as nat) + "s"@,
        None => Seq::empty(),
    }
}

/// The `ETA` part of a row's status line: empty when unknown.
pub fn eta_suffix(eta: Option<u64>) -> (s: String)
    ensures
        s@ == eta_text(eta),
{
    match eta {
        Some(e) => {
            let mut s = owned(" · ETA ");
            push_decimal(&mut s, e);
            push_str(&mut s, "s");
            s
        },
        None => {
            let s = String::new();
            assert(s@ =~= Seq::<char>::empty());
            s
        },
    }
}

/// The size part of a row: the completed size over the total size, or the
/// completed size alone while the total is unknown.
pub open spec fn size_text_of(completed: Seq<char>, total: Option<Seq<char>>) -> Seq<char> {
    match total {
        Some(t) => completed + " / "@ + t,
        None => completed + " downloaded"@,
    }
}

/// The size part of a row, from the byte sizes already written out.
pub fn size_text(completed: &str, total: Option<&str>) -> (s: String)
    ensures
        s@ == size_text_of(
            completed@,
            match total {
                Some(t) => Some(t@),
                None => None,
            },
        ),
{
    let mut s = owned(completed);
    match total {
        Some(t) => {
            push_str(&mut s, " / ");
            push_str(&mut s, t);
        },
        None => {
            push_str(&mut s, " downloaded");
        },
    }
    s
}

/// The status line of a row.
pub open spec fn status_text(
    state: Seq<char>,
    size: Seq<char>,
    peers: u32,
    connections: u32,
    seeders: u32,
    eta: Option<u64>,
) -> Seq<char> {
    state + " · "@ + size + " · "@ + decimal(peers as nat) + " peers · "@ + decimal(
        connections as nat,
    ) + " connected · "@ + decimal(seeders as nat) + " seeders"@ + eta_text(eta)
}

/// The status line of a row: state, size, peers, connections, seeders
/// and, when known, the ETA.
pub fn status_line(
    state: &str,
    size: &str,
    peers: u32,
    connections: u32,
    seeders: u32,
    eta: Option<u64>,
) -> (s: String)
    ensures
        s@ == status_text(state@, size@, peers, connections, seeders, eta),
{
    let mut s = owned(state);
    push_str(&mut s, " · ");
    push_str(&mut s, size);
    push_str(&mut s, " · ");
    push_decimal(&mut s, peers as u64);
    push_str(&mut s, " peers · ");
    push_decimal(&mut s, connections as u64);
    push_str(&mut s, " connected · ");
    push_decimal(&mut s, seeders as u64);
    push_str(&mut s, " seeders");
    let e = eta_suffix(eta);
    push_str(&mut s, e.as_str());
    s
}

/// The look of a button.
#[derive(Clone, Copy, Debug, PartialEq, Eq, Structural)]
pub enum ButtonTone {
    Success,
    Danger,
    Warning,
    Info,
    Secondary,
}

/// The lime accent colour.
pub const LIME: u32 = 0xb8ff3c;

/// The muted text colour.
pub const MUTED: u32 = 0xa6bd9c;

/// The colour of destructive buttons.
pub const DANGER: u32 = 0xff7b8b;

/// The look of a toolbar button of the given colour: lime is success, the
/// danger colour is danger, muted is secondary, anything else a warning.
pub fn button_tone(color: u32) -> (t: ButtonTone)
    ensures
        t == (if color == LIME {
            ButtonTone::Success
        } else if color == DANGER {
            ButtonTone::Danger
        } else if color == MUTED {
            ButtonTone::Secondary
        } else {
            ButtonTone::Warning
        }),
{
    if color == LIME {
        ButtonTone::Success
    } else if color == DANGER {
        ButtonTone::Danger
    } else if color == MUTED {
        ButtonTone::Secondary
    } else {
        ButtonTone::Warning
    }
}

/// The look of a row's action button with the given label.
pub open spec fn action_tone_of(label: Seq<char>) -> ButtonTone {
    if label == "REMOVE"@ {
        ButtonTone::Danger
    } else if label == "PAUSE"@ {
        ButtonTone::Warning
    } else if label == "RESUME"@ {
        ButtonTone::Success
    } else if label == "VERIFY"@ {
        ButtonTone::Info
    } else {
        ButtonTone::Secondary
    }
}

/// The look of a row's action button: remove is danger, pause a warning,
/// resume success, verify info, anything else secondary.
pub fn action_tone(label: &str) -> (t: ButtonTone)
    ensures
        t == action_tone_of(label@),
{
    if str_equal(label, "REMOVE") {
        ButtonTone::Danger
    } else if str_equal(label, "PAUSE") {
        ButtonTone::Warning
    } else if str_equal(label, "RESUME") {
        ButtonTone::Success
    } else if str_equal(label, "VERIFY") {
        ButtonTone::Info
    } else {
        ButtonTone::Secondary
    }
}

/// What a window control does.
#[derive(Clone, Copy, Debug, PartialEq, Eq, Structural)]
pub enum WindowAction {
    Minimize,
    Zoom,
    Close,
    Nothing,
}

/// What the window control with the given label does.
pub open spec fn window_action_of(label: Seq<char>) -> WindowAction {
    if label == "MIN"@ {
        WindowAction::Minimize
    } else if label == "MAX"@ {
        WindowAction::Zoom
    } else if label == "X"@ {
        WindowAction::Close
    } else {
        WindowAction::Nothing
    }
}

/// What the window control with the given label does.
pub fn window_action(label: &str) -> (a: WindowAction)
    ensures
        a == window_action_of(label@),
{
    if str_equal(label, "MIN") {
        WindowAction::Minimize
    } else if str_equal(label, "MAX") {
        WindowAction::Zoom
    } else if str_equal(label, "X") {
        WindowAction::Close
    } else {
        WindowAction::Nothing
    }
}

/// The glyph that a window control shows for its action.
pub open spec fn window_glyph_of(action: WindowAction) -> Seq<char> {
    match action {
        WindowAction::Minimize => "—"@,
        WindowAction::Zoom => "⛶"@,
        WindowAction::Close => "×"@,
        WindowAction::Nothing => "?"@,
    }
}

/// The glyph that the window control with the given label shows.
pub fn window_glyph(label: &str) -> (g: String)
    ensures
        g@ == window_glyph_of(window_action_of(label@)),
{
    match window_action(label) {
        WindowAction::Minimize => owned("—"),
        WindowAction::Zoom => owned("⛶"),
        WindowAction::Close => owned("×"),
        WindowAction::Nothing => owned("?"),
    }
}

/// The buttons of a download row.
#[derive(Clone, Copy, Debug, PartialEq, Eq, Structural)]
pub enum RowAction {
    Pause,
    Resume,
    Verify,
    Repair,
    OpenLocation,
    Remove,
}

/// The command that a row's button sends. Opening the location names the
/// download's data path; removing a download keeps its files.
pub fn row_command(action: RowAction, torrent: &TorrentInfo) -> (cmd: AppCommand)
    ensures
        match action {
            RowAction::Pause => cmd matches AppCommand::Pause(id) && id@ == torrent.id@,
            RowAction::Resume => cmd matches AppCommand::Resume(id) && id@ == torrent.id@,
            RowAction::Verify => cmd matches AppCommand::Verify(id) && id@ == torrent.id@,
            RowAction::Repair => cmd matches AppCommand::Repair(id) && id@ == torrent.id@,
            RowAction::OpenLocation => cmd matches AppCommand::OpenLocation(path) && path@
                == torrent.location@,
            RowAction::Remove => cmd matches AppCommand::Cancel { id, delete_files } && id@
                == torrent.id@ && !delete_files,
        },
{
    match action {
        RowAction::Pause => AppCommand::Pause(torrent.id.clone()),
        RowAction::Resume => AppCommand::Resume(torrent.id.clone()),
        RowAction::Verify => AppCommand::Verify(torrent.id.clone()),
        RowAction::Repair => AppCommand::Repair(torrent.id.clone()),
        RowAction::OpenLocation => AppCommand::OpenLocation(torrent.location.clone()),
        RowAction::Remove => AppCommand::Cancel { id: torrent.id.clone(), delete_files: false },
    }
}

/// The buttons of the toolbar that act on every download.
#[derive(Clone, Copy, Debug, PartialEq, Eq, Structural)]
pub enum ToolbarAction {
    PauseAll,
    ResumeAll,
    ClearCacheKeepFiles,
    DeleteData,
}

/// The command that a toolbar button sends: clearing the cache keeps the
/// downloaded files, and only "delete data" deletes them.
pub fn toolbar_command(action: ToolbarAction) -> (cmd: AppCommand)
    ensures
        match action {
            ToolbarAction::PauseAll => cmd is PauseAll,
            ToolbarAction::ResumeAll => cmd is ResumeAll,
            ToolbarAction::ClearCacheKeepFiles => cmd matches AppCommand::CancelAll { delete_files }
                && !delete_files,
            ToolbarAction::DeleteData => cmd matches AppCommand::CancelAll { delete_files }
                && delete_files,
        },
{
    match action {
        ToolbarAction::PauseAll => AppCommand::PauseAll,
        ToolbarAction::ResumeAll => AppCommand::ResumeAll,
        ToolbarAction::ClearCacheKeepFiles => AppCommand::CancelAll { delete_files: false },
        ToolbarAction::DeleteData => AppCommand::CancelAll { delete_files: true },
    }
}

} // verus!
