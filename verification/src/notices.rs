//! The notice line's text for each outcome of an engine command.

use vstd::prelude::*;
use crate::text::{decimal, owned, push_decimal, push_str};

verus! {

/// The outcome of a command that the notice line reports.
#[derive(Clone, Debug)]
pub enum Outcome {
    /// An input is being added.
    Adding { uri: String },
    /// A download was paused.
    Paused { id: String },
    /// A download was resumed.
    Resumed { id: String },
    /// A download's removal has started.
    Removing { id: String },
    /// A download was removed.
    Removed { id: String },
    /// A download's removal failed, with the engine's error text.
    RemoveFailed { id: String, error: String },
    /// The background removal task itself failed, with its error text.
    RemoveTaskFailed { id: String, error: String },
    /// A download's folder was opened.
    Opened { path: String },
    /// The global speed limits were applied.
    GlobalLimitsApplied,
    /// Pause all paused this many downloads.
    PausedAll { count: u64 },
    /// Resume all resumed this many downloads.
    ResumedAll { count: u64 },
    /// Clear all removed this many downloads, deleting their data or not.
    ClearedAll { count: u64, delete_files: bool },
}

/// The text of the notice for an outcome.
pub open spec fn notice_text(o: Outcome) -> Seq<char> {
    match o {
        Outcome::Adding { uri } => "Adding "@ + uri@ + "…"@,
        Outcome::Paused { id } => "Paused "@ + id@,
        Outcome::Resumed { id } => "Resumed "@ + id@,
        Outcome::Removing { id } => "Removing "@ + id@ + "…"@,
        Outcome::Removed { id } => "Removed "@ + id@,
        Outcome::RemoveFailed { id, error } => "Remove failed for "@ + id@ + ": "@ + error@,
        Outcome::RemoveTaskFailed { id, error } => "Remove task failed for "@ + id@ + ": "@
            + error@,
        Outcome::Opened { path } => "Opened "@ + path@,
        Outcome::GlobalLimitsApplied => "Global speed limits applied"@,
        Outcome::PausedAll { count } => "Paused "@ + decimal(count as nat) + " downloads"@,
        Outcome::ResumedAll { count } => "Resumed "@ + decimal(count as nat) + " downloads"@,
        Outcome::ClearedAll { count, delete_files } => if delete_files {
            "Deleted data for "@ + decimal(count as nat) + " downloads"@
        } else {
            "Cleared torrent cache for "@ + decimal(count as nat) + " downloads; files kept"@
        },
    }
}

/// `a + b + c`.
fn join3(a: &str, b: &str, c: &str) -> (r: String)
    ensures
        r@ == a@ + b@ + c@,
{
    let mut r = owned(a);
    push_str(&mut r, b);
    push_str(&mut r, c);
    r
}

/// `a + b + c + d`.
fn join4(a: &str, b: &str, c: &str, d: &str) -> (r: String)
    ensures
        r@ == a@ + b@ + c@ + d@,
{
    let mut r = join3(a, b, c);
    push_str(&mut r, d);
    r
}

/// `a`, the decimal text of `n`, then `b`.
fn around_count(a: &str, n: u64, b: &str) -> (r: String)
    ensures
        r@ == a@ + decimal(n as nat) + b@,
{
    let mut r = owned(a);
    push_decimal(&mut r, n);
    push_str(&mut r, b);
    r
}

/// The notice text for an outcome.
pub fn notice(o: &Outcome) -> (text: String)
    ensures
        text@ == notice_text(*o),
{
    match o {
        Outcome::Adding { uri } => join3("Adding ", uri.as_str(), "…"),
        Outcome::Paused { id } => crate::text::concat("Paused ", id.as_str()),
        Outcome::Resumed { id } => crate::text::concat("Resumed ", id.as_str()),
        Outcome::Removing { id } => join3("Removing ", id.as_str(), "…"),
        Outcome::Removed { id } => crate::text::concat("Removed ", id.as_str()),
        Outcome::RemoveFailed { id, error } => join4(
            "Remove failed for ",
            id.as_str(),
            ": ",
            error.as_str(),
        ),
        Outcome::RemoveTaskFailed { id, error } => join4(
            "Remove task failed for ",
            id.as_str(),
            ": ",
            error.as_str(),
        ),
        Outcome::Opened { path } => crate::text::concat("Opened ", path.as_str()),
        Outcome::GlobalLimitsApplied => owned("Global speed limits applied"),
        Outcome::PausedAll { count } => around_count("Paused ", *count, " downloads"),
        Outcome::ResumedAll { count } => around_count("Resumed ", *count, " downloads"),
        Outcome::ClearedAll { count, delete_files } => if *delete_files {
            around_count("Deleted data for ", *count, " downloads")
        } else {
            around_count("Cleared torrent cache for ", *count, " downloads; files kept")
        },
    }
}

} // verus!
