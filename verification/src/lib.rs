//! Verified core of the lime-bit download client: input parsing, path
//! decisions, download bookkeeping and the view model that the desktop
//! front end drives.

pub mod text;
pub mod paths;
pub mod options;
pub mod state;
pub mod registry;
pub mod app_model;
pub mod log_lines;
pub mod intake;
pub mod notices;
pub mod view;
