//! The values that pass between the download engine and the window: the
//! status of one download, the events that reach the window and the
//! commands that reach the engine.

use vstd::prelude::*;
use crate::options::{speed_limit, opt_nat_u64, speed_limit_field, DownloadForm, DownloadPlan};
use crate::paths::{
    is_join_child, is_join_of, is_plain_relative_path, path_component_count, path_join,
};
use crate::text::{concat, owned, split_on};

verus! {

/// The state of a download, as the engine reports it.
#[derive(Clone, Debug)]
pub enum TransferState {
    Queued,
    Connecting,
    Downloading,
    Seeding,
    Paused,
    Completed,
    Error { kind: String, message: String, retryable: bool },
}

/// The name under which a state is shown: the lower-case state, or
/// `error: ` and the message.
pub open spec fn state_text(s: TransferState) -> Seq<char> {
    match s {
        TransferState::Queued => "queued"@,
        TransferState::Connecting => "connecting"@,
        TransferState::Downloading => "downloading"@,
        TransferState::Seeding => "seeding"@,
        TransferState::Paused => "paused"@,
        TransferState::Completed => "completed"@,
        TransferState::Error { message, .. } => "error: "@ + message@,
    }
}

/// The name under which `state` is shown.
pub fn state_name(state: &TransferState) -> (name: String)
    ensures
        name@ == state_text(*state),
{
    match state {
        TransferState::Queued => owned("queued"),
        TransferState::Connecting => owned("connecting"),
        TransferState::Downloading => owned("downloading"),
        TransferState::Seeding => owned("seeding"),
        TransferState::Paused => owned("paused"),
        TransferState::Completed => owned("completed"),
        TransferState::Error { message, .. } => concat("error: ", message.as_str()),
    }
}

/// One download as the window shows it.
#[derive(Clone, Debug)]
pub struct TorrentInfo {
    pub id: String,
    pub name: String,
    pub state: String,
    pub completed_size: u64,
    pub total_size: Option<u64>,
    pub download_speed: u64,
    pub upload_speed: u64,
    pub peers: u32,
    pub connections: u32,
    pub seeders: u32,
    pub eta_seconds: Option<u64>,
    pub location: String,
}

/// What the engine reports of one download, as plain values.
#[derive(Clone, Debug)]
pub struct StatusSnapshot {
    /// The download's GID.
    pub gid: String,
    pub name: String,
    pub state: TransferState,
    pub completed_size: u64,
    pub total_size: Option<u64>,
    pub download_speed: u64,
    pub upload_speed: u64,
    pub peers: u32,
    pub connections: u32,
    pub seeders: u32,
    pub eta_seconds: Option<u64>,
    /// The directory the download is saved in.
    pub save_dir: String,
    /// For a torrent, the paths of its files within the torrent.
    pub torrent_files: Option<Vec<String>>,
}

/// Whether a torrent lays its files out in a folder of its own: it has
/// more than one file, or its first file's path has more than one
/// component (given here as `first_components`).
pub open spec fn multi_file_layout(file_count: Option<nat>, first_components: Option<nat>) -> bool {
    match file_count {
        Some(n) => n > 1 || (first_components matches Some(c) && c > 1),
        None => false,
    }
}

/// Executable [`multi_file_layout`].
pub fn is_multi_file_layout(file_count: Option<usize>, first_components: Option<usize>) -> (r:
    bool)
    ensures
        r == multi_file_layout(
            match file_count {
                Some(n) => Some(n as nat),
                None => None,
            },
            match first_components {
                Some(c) => Some(c as nat),
                None => None,
            },
        ),
{
    match file_count {
        Some(n) => n > 1 || match first_components {
            Some(c) => c > 1,
            None => false,
        },
        None => false,
    }
}

/// Where a download's data lies: the save directory joined with the
/// download's name for a torrent with a folder of its own, else the save
/// directory itself.
pub fn download_location(save_dir: &str, name: &str, multi_file: bool) -> (location: String)
    ensures
        !multi_file ==> location@ == save_dir@,
        multi_file && is_join_child(name@) ==> is_join_of(save_dir@, name@, location@),
{
    if multi_file {
        path_join(save_dir, name)
    } else {
        owned(save_dir)
    }
}

/// The row that the window shows for one reported download.
pub fn to_info(status: StatusSnapshot) -> (info: TorrentInfo)
    ensures
        info.id@ == status.gid@,
        info.name@ == status.name@,
        info.state@ == state_text(status.state),
        info.completed_size == status.completed_size,
        info.total_size == status.total_size,
        info.download_speed == status.download_speed,
        info.upload_speed == status.upload_speed,
        info.peers == status.peers,
        info.connections == status.connections,
        info.seeders == status.seeders,
        info.eta_seconds == status.eta_seconds,
        match status.torrent_files {
            None => info.location@ == status.save_dir@,
            Some(files) => {
                let first_parts = split_on(files@[0]@, '/').len();
                let single = files@.len() == 0 || (files@.len() == 1 && is_plain_relative_path(
                    files@[0]@,
                ) && first_parts == 1);
                let multi = files@.len() > 1 || (files@.len() == 1 && is_plain_relative_path(
                    files@[0]@,
                ) && first_parts > 1);
                &&& single ==> info.location@ == status.save_dir@
                &&& files@.len() == 1 && is_join_child(files@[0]@) ==> info.location@
                    == status.save_dir@
                &&& multi && is_join_child(status.name@) ==> is_join_of(
                    status.save_dir@,
                    status.name@,
                    info.location@,
                )
            },
        },
{
    let multi = match &status.torrent_files {
        Some(files) => {
            let first = if files.len() > 0 {
                Some(path_component_count(files[0].as_str()))
            } else {
                None
            };
            is_multi_file_layout(Some(files.len()), first)
        },
        None => false,
    };
    let location = download_location(status.save_dir.as_str(), status.name.as_str(), multi);
    let state = state_name(&status.state);
    TorrentInfo {
        id: status.gid,
        name: status.name,
        state,
        completed_size: status.completed_size,
        total_size: status.total_size,
        download_speed: status.download_speed,
        upload_speed: status.upload_speed,
        peers: status.peers,
        connections: status.connections,
        seeders: status.seeders,
        eta_seconds: status.eta_seconds,
        location,
    }
}

/// What the engine tells the window.
#[derive(Clone, Debug)]
pub enum AppEvent {
    TorrentUpdated(TorrentInfo),
    TorrentSnapshot(Vec<TorrentInfo>),
    TorrentRemoved(String),
    Error(String),
    BackendLog(String),
}

/// What the window asks of the engine.
#[derive(Clone, Debug)]
pub enum AppCommand {
    Add { uri: String, options: DownloadPlan },
    Pause(String),
    Resume(String),
    Cancel { id: String, delete_files: bool },
    Verify(String),
    Repair(String),
    OpenLocation(String),
    SetGlobalLimits { download: Option<u64>, upload: Option<u64> },
    PauseAll,
    ResumeAll,
    CancelAll { delete_files: bool },
    Shutdown,
}

/// The command that applies the global speed limits of `form`: each a
/// positive number of bytes per second, or no limit.
pub fn make_global_limits_command(form: &DownloadForm) -> (cmd: AppCommand)
    ensures
        match cmd {
            AppCommand::SetGlobalLimits { download, upload } => {
                &&& opt_nat_u64(download) == speed_limit_field(form.max_download_speed@)
                &&& opt_nat_u64(upload) == speed_limit_field(form.max_upload_speed@)
            },
            _ => false,
        },
{
    AppCommand::SetGlobalLimits {
        download: speed_limit(&form.max_download_speed),
        upload: speed_limit(&form.max_upload_speed),
    }
}

} // verus!
