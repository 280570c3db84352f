//! What the window shows: the rows, the notice line, the backend console
//! and the open panels, and how each engine event changes them.

use vstd::prelude::*;
use std::collections::VecDeque;
use crate::state::{AppEvent, TorrentInfo};
use crate::text::str_equal;

verus! {

/// How many lines the backend console keeps.
pub const CONSOLE_LINES: usize = 2000;

/// The index of the first row for download `id`.
pub open spec fn first_with_id(s: Seq<TorrentInfo>, id: Seq<char>) -> Option<int>
    decreases s.len(),
{
    if s.len() == 0 {
        None
    } else {
        match first_with_id(s.drop_last(), id) {
            Some(i) => Some(i),
            None => if s.last().id@ == id {
                Some(s.len() - 1)
            } else {
                None
            },
        }
    }
}

/// The rows after an update for `info`: the first row for the same
/// download is replaced, or the row is added at the end.
pub open spec fn upsert_row(s: Seq<TorrentInfo>, info: TorrentInfo) -> Seq<TorrentInfo> {
    match first_with_id(s, info.id@) {
        Some(i) => s.update(i, info),
        None => s.push(info),
    }
}

/// The rows that are not for download `id`, in order.
pub open spec fn without_id(s: Seq<TorrentInfo>, id: Seq<char>) -> Seq<TorrentInfo>
    decreases s.len(),
{
    if s.len() == 0 {
        Seq::empty()
    } else {
        let r = without_id(s.drop_last(), id);
        if s.last().id@ != id {
            r.push(s.last())
        } else {
            r
        }
    }
}

/// The console lines after `line` arrives: the oldest line goes when the
/// console is full.
pub open spec fn log_window(logs: Seq<String>, line: String) -> Seq<String> {
    if logs.len() >= CONSOLE_LINES {
        logs.drop_first().push(line)
    } else {
        logs.push(line)
    }
}

/// The most recent `CONSOLE_LINES` lines of a history.
pub open spec fn recent_lines(history: Seq<String>) -> Seq<String> {
    if history.len() > CONSOLE_LINES {
        history.skip(history.len() - CONSOLE_LINES)
    } else {
        history
    }
}

proof fn lemma_first_with_id_bounds(s: Seq<TorrentInfo>, id: Seq<char>)
    ensures
        match first_with_id(s, id) {
            Some(i) => 0 <= i < s.len() && s[i].id@ == id && forall|j: int|
                0 <= j < i ==> #[trigger] s[j].id@ != id,
            None => forall|j: int| 0 <= j < s.len() ==> #[trigger] s[j].id@ != id,
        },
    decreases s.len(),
{
    if s.len() > 0 {
        let t = s.drop_last();
        lemma_first_with_id_bounds(t, id);
        match first_with_id(t, id) {
            Some(i) => {
                assert(s[i] == t[i]);
                assert forall|j: int| 0 <= j < i implies #[trigger] s[j].id@ != id by {
                    assert(s[j] == t[j]);
                }
            },
            None => {
                assert forall|j: int| 0 <= j < t.len() implies #[trigger] s[j].id@ != id by {
                    assert(s[j] == t[j]);
                }
            },
        }
    }
}

/// The view model behind the main window.
pub struct AppModel {
    torrents: Vec<TorrentInfo>,
    backend_logs: VecDeque<String>,
    notice: Option<String>,
    options_open: bool,
    console_open: bool,
}

impl AppModel {
    /// The console holds at most `CONSOLE_LINES` lines.
    pub closed spec fn wf(&self) -> bool {
        self.backend_logs@.len() <= CONSOLE_LINES
    }

    /// The rows, in order.
    pub closed spec fn rows(&self) -> Seq<TorrentInfo> {
        self.torrents@
    }

    /// The console lines, oldest first.
    pub closed spec fn logs(&self) -> Seq<String> {
        self.backend_logs@
    }

    /// A well-formed window's console holds at most `CONSOLE_LINES` lines.
    pub proof fn lemma_wf_bounds_console(&self)
        requires
            self.wf(),
        ensures
            self.logs().len() <= CONSOLE_LINES,
    {
    }

    /// The notice line.
    pub closed spec fn notice_spec(&self) -> Option<String> {
        self.notice
    }

    /// Whether the options panel is open.
    pub closed spec fn options_open_spec(&self) -> bool {
        self.options_open
    }

    /// Whether the backend console is open.
    pub closed spec fn console_open_spec(&self) -> bool {
        self.console_open
    }

    /// A window with no rows, no notice, an empty console and both panels
    /// closed.
    pub fn new() -> (m: Self)
        ensures
            m.wf(),
            m.rows() == Seq::<TorrentInfo>::empty(),
            m.logs() == Seq::<String>::empty(),
            m.notice_spec() is None,
            !m.options_open_spec(),
            !m.console_open_spec(),
    {
        AppModel {
            torrents: Vec::new(),
            backend_logs: VecDeque::new(),
            notice: None,
            options_open: false,
            console_open: false,
        }
    }

    /// The rows.
    pub fn torrents(&self) -> (r: &Vec<TorrentInfo>)
        ensures
            r@ == self.rows(),
    {
        &self.torrents
    }

    /// The console lines, oldest first.
    pub fn backend_logs(&self) -> (r: &VecDeque<String>)
        ensures
            r@ == self.logs(),
    {
        &self.backend_logs
    }

    /// The notice line.
    pub fn notice(&self) -> (r: &Option<String>)
        ensures
            *r == self.notice_spec(),
    {
        &self.notice
    }

    /// Whether the options panel is open.
    pub fn options_open(&self) -> (r: bool)
        ensures
            r == self.options_open_spec(),
    {
        self.options_open
    }

    /// Whether the backend console is open.
    pub fn console_open(&self) -> (r: bool)
        ensures
            r == self.console_open_spec(),
    {
        self.console_open
    }

    /// Opens the options panel if closed, closes it if open.
    pub fn toggle_options(&mut self)
        ensures
            final(self).options_open_spec() == !old(self).options_open_spec(),
            final(self).console_open_spec() == old(self).console_open_spec(),
            final(self).rows() == old(self).rows(),
            final(self).logs() == old(self).logs(),
            final(self).notice_spec() == old(self).notice_spec(),
    {
        self.options_open = !self.options_open;
    }

    /// Opens the backend console if closed, closes it if open.
    pub fn toggle_console(&mut self)
        ensures
            final(self).console_open_spec() == !old(self).console_open_spec(),
            final(self).options_open_spec() == old(self).options_open_spec(),
            final(self).rows() == old(self).rows(),
            final(self).logs() == old(self).logs(),
            final(self).notice_spec() == old(self).notice_spec(),
    {
        self.console_open = !self.console_open;
    }

    fn upsert(&mut self, info: TorrentInfo)
        ensures
            final(self).torrents@ == upsert_row(old(self).torrents@, info),
            final(self).backend_logs@ == old(self).backend_logs@,
            final(self).notice == old(self).notice,
            final(self).options_open == old(self).options_open,
            final(self).console_open == old(self).console_open,
    {
        let mut k: usize = 0;
        proof {
            lemma_first_with_id_bounds(self.torrents@, info.id@);
        }
        while k < self.torrents.len()
            invariant
                k <= self.torrents@.len(),
                forall|j: int| 0 <= j < k ==> #[trigger] self.torrents@[j].id@ != info.id@,
                self.torrents@ == old(self).torrents@,
                self.backend_logs@ == old(self).backend_logs@,
                self.notice == old(self).notice,
                self.options_open == old(self).options_open,
                self.console_open == old(self).console_open,
            decreases self.torrents@.len() - k,
        {
            if str_equal(self.torrents[k].id.as_str(), info.id.as_str()) {
                proof {
                    lemma_first_with_id_bounds(self.torrents@, info.id@);
                    match first_with_id(self.torrents@, info.id@) {
                        Some(i) => {
                            if i < k {
                                assert(self.torrents@[i].id@ != info.id@);
                            } else if i > k {
                                assert(self.torrents@[k as int].id@ != info.id@);
                            }
                        },
                        None => {
                            assert(self.torrents@[k as int].id@ != info.id@);
                        },
                    }
                }
                self.torrents.set(k, info);
                return;
            }
            k = k + 1;
        }
        proof {
            lemma_first_with_id_bounds(self.torrents@, info.id@);
            if first_with_id(self.torrents@, info.id@) is Some {
                let i = first_with_id(self.torrents@, info.id@)->0;
                assert(self.torrents@[i].id@ != info.id@);
            }
        }
        self.torrents.push(info);
    }

    fn remove_rows(&mut self, id: &str)
        ensures
            final(self).torrents@ == without_id(old(self).torrents@, id@),
            final(self).backend_logs@ == old(self).backend_logs@,
            final(self).notice == old(self).notice,
            final(self).options_open == old(self).options_open,
            final(self).console_open == old(self).console_open,
    {
        let mut rest: Vec<TorrentInfo> = Vec::new();
        std::mem::swap(&mut rest, &mut self.torrents);
        let ghost orig = rest@;
        let total = rest.len();
        let mut n: usize = 0;
        while rest.len() > 0
            invariant
                orig.len() == total,
                n <= orig.len(),
                rest@ == orig.skip(n as int),
                self.torrents@ == without_id(orig.take(n as int), id@),
                self.backend_logs@ == old(self).backend_logs@,
                self.notice == old(self).notice,
                self.options_open == old(self).options_open,
                self.console_open == old(self).console_open,
            decreases rest@.len(),
        {
            assert(n < orig.len());
            let t = rest.remove(0);
            proof {
                assert(orig.take(n + 1).drop_last() =~= orig.take(n as int));
                assert(orig.take(n + 1).last() == orig[n as int]);
                assert(orig.skip(n as int)[0] == orig[n as int]);
                assert(orig.skip(n as int).subrange(1, orig.skip(n as int).len() as int)
                    =~= orig.skip(n + 1));
            }
            if !str_equal(t.id.as_str(), id) {
                self.torrents.push(t);
            }
            n = n + 1;
        }
        assert(orig.take(n as int) =~= orig);
    }

    /// Applies one event from the engine.
    pub fn apply_event(&mut self, event: AppEvent)
        requires
            old(self).wf(),
        ensures
            final(self).wf(),
            final(self).options_open_spec() == old(self).options_open_spec(),
            final(self).console_open_spec() == old(self).console_open_spec(),
            match event {
                AppEvent::TorrentSnapshot(snapshot) => {
                    &&& final(self).rows() == snapshot@
                    &&& final(self).logs() == old(self).logs()
                    &&& final(self).notice_spec() == old(self).notice_spec()
                },
                AppEvent::TorrentUpdated(info) => {
                    &&& final(self).rows() == upsert_row(old(self).rows(), info)
                    &&& final(self).logs() == old(self).logs()
                    &&& final(self).notice_spec() == old(self).notice_spec()
                },
                AppEvent::TorrentRemoved(id) => {
                    &&& final(self).rows() == without_id(old(self).rows(), id@)
                    &&& final(self).logs() == old(self).logs()
                    &&& final(self).notice_spec() is None
                },
                AppEvent::Error(message) => {
                    &&& final(self).rows() == old(self).rows()
                    &&& final(self).logs() == old(self).logs()
                    &&& final(self).notice_spec() == Some(message)
                },
                AppEvent::BackendLog(line) => {
                    &&& final(self).rows() == old(self).rows()
                    &&& final(self).logs() == log_window(old(self).logs(), line)
                    &&& final(self).notice_spec() == old(self).notice_spec()
                },
            },
    {
        match event {
            AppEvent::TorrentSnapshot(snapshot) => {
                self.torrents = snapshot;
            },
            AppEvent::TorrentUpdated(info) => {
                self.upsert(info);
            },
            AppEvent::TorrentRemoved(id) => {
                self.remove_rows(id.as_str());
                // an older notice such as "Adding ..." should not outlive a removal
                self.notice = None;
            },
            AppEvent::Error(message) => {
                self.notice = Some(message);
            },
            AppEvent::BackendLog(line) => {
                if self.backend_logs.len() >= CONSOLE_LINES {
                    self.backend_logs.pop_front();
                    assert(self.backend_logs@ =~= old(self).backend_logs@.drop_first());
                }
                self.backend_logs.push_back(line);
            },
        }
    }
}

/// The console shows the most recent `CONSOLE_LINES` lines of everything
/// logged: adding a line to the recent lines of a history gives the recent
/// lines of the longer history.
pub proof fn law_console_keeps_recent_lines(history: Seq<String>, line: String)
    ensures
        log_window(recent_lines(history), line) == recent_lines(history.push(line)),
{
    let h = history.push(line);
    if history.len() > CONSOLE_LINES {
        assert(recent_lines(history).drop_first().push(line) =~= h.skip(h.len() - CONSOLE_LINES));
    } else if history.len() == CONSOLE_LINES {
        assert(history.drop_first().push(line) =~= h.skip(h.len() - CONSOLE_LINES));
    }
}

/// After an update for `info`, the first row for that download is `info`,
/// and no other row changed; the number of rows grows only for a new
/// download.
pub proof fn law_update_then_find(rows: Seq<TorrentInfo>, info: TorrentInfo)
    ensures
        first_with_id(upsert_row(rows, info), info.id@) is Some,
        upsert_row(rows, info)[first_with_id(upsert_row(rows, info), info.id@)->0] == info,
        upsert_row(rows, info).len() == rows.len() + (if first_with_id(rows, info.id@) is Some {
            0int
        } else {
            1int
        }),
{
    lemma_first_with_id_bounds(rows, info.id@);
    let u = upsert_row(rows, info);
    lemma_first_with_id_bounds(u, info.id@);
    match first_with_id(rows, info.id@) {
        Some(i) => {
            assert(u[i].id@ == info.id@);
            let k = first_with_id(u, info.id@)->0;
            if k < i {
                assert(u[k] == rows[k]);
                assert(rows[k].id@ != info.id@);
            }
            assert(k == i);
        },
        None => {
            assert(u[rows.len() as int].id@ == info.id@);
            let k = first_with_id(u, info.id@)->0;
            if k < rows.len() {
                assert(u[k] == rows[k]);
                assert(rows[k].id@ != info.id@);
            }
            assert(k == rows.len());
        },
    }
}

/// After a removal of `id`, no row is for that download, and every other
/// row stays.
pub proof fn law_removed_rows_gone(rows: Seq<TorrentInfo>, id: Seq<char>)
    ensures
        forall|j: int| 0 <= j < without_id(rows, id).len() ==> #[trigger] without_id(rows, id)[j].id@
            != id,
        forall|j: int| 0 <= j < rows.len() && rows[j].id@ != id ==> without_id(rows, id).contains(
            #[trigger] rows[j],
        ),
    decreases rows.len(),
{
    if rows.len() > 0 {
        let t = rows.drop_last();
        law_removed_rows_gone(t, id);
        let r = without_id(t, id);
        assert forall|j: int| 0 <= j < rows.len() && rows[j].id@ != id implies without_id(
            rows,
            id,
        ).contains(#[trigger] rows[j]) by {
            if j < t.len() {
                assert(rows[j] == t[j]);
                assert(r.contains(t[j]));
                let k = choose|k: int| 0 <= k < r.len() && r[k] == t[j];
                if rows.last().id@ != id {
                    assert(r.push(rows.last())[k] == t[j]);
                }
            } else {
                assert(r.push(rows.last())[r.len() as int] == rows[j]);
            }
        }
        let w = without_id(rows, id);
        assert forall|j: int| 0 <= j < w.len() implies #[trigger] w[j].id@ != id by {
            if j < r.len() {
                assert(w[j] == r[j]);
                assert(r[j].id@ != id);
            }
        }
    }
}

/// A removal of `id` keeps exactly the rows of other downloads, in their
/// old order: the result is the old rows filtered by "is not for `id`".
pub proof fn law_removal_keeps_order(rows: Seq<TorrentInfo>, id: Seq<char>)
    ensures
        without_id(rows, id) == rows.filter(|t: TorrentInfo| t.id@ != id),
    decreases rows.len(),
{
    reveal(Seq::filter);
    if rows.len() > 0 {
        law_removal_keeps_order(rows.drop_last(), id);
    }
}

// ---------------------------------------------------------------------
// Toolbar totals
// ---------------------------------------------------------------------

/// Whether a shown state counts as active: connecting, downloading or
/// seeding.
pub open spec fn is_active_state(state: Seq<char>) -> bool {
    state == "connecting"@ || state == "downloading"@ || state == "seeding"@
}

/// How many rows are active.
pub open spec fn active_count(s: Seq<TorrentInfo>) -> nat
    decreases s.len(),
{
    if s.len() == 0 {
        0
    } else {
        active_count(s.drop_last()) + if is_active_state(s.last().state@) {
            1nat
        } else {
            0nat
        }
    }
}

/// How many rows are queued.
pub open spec fn queued_count(s: Seq<TorrentInfo>) -> nat
    decreases s.len(),
{
    if s.len() == 0 {
        0
    } else {
        queued_count(s.drop_last()) + if s.last().state@ == "queued"@ {
            1nat
        } else {
            0nat
        }
    }
}

/// The sum of the download speeds of the rows.
pub open spec fn total_download(s: Seq<TorrentInfo>) -> nat
    decreases s.len(),
{
    if s.len() == 0 {
        0
    } else {
        total_download(s.drop_last()) + s.last().download_speed as nat
    }
}

/// The sum of the upload speeds of the rows.
pub open spec fn total_upload(s: Seq<TorrentInfo>) -> nat
    decreases s.len(),
{
    if s.len() == 0 {
        0
    } else {
        total_upload(s.drop_last()) + s.last().upload_speed as nat
    }
}

/// The active count is the number of rows whose state is exactly
/// `connecting`, `downloading` or `seeding`; a row in any other state
/// (`completed`, `paused`, `queued`, `error`, ...) adds nothing.
pub proof fn law_active_rows(s: Seq<TorrentInfo>)
    ensures
        active_count(s) == s.filter(
            |t: TorrentInfo|
                t.state@ == "connecting"@ || t.state@ == "downloading"@ || t.state@ == "seeding"@,
        ).len(),
    decreases s.len(),
{
    reveal(Seq::filter);
    if s.len() > 0 {
        law_active_rows(s.drop_last());
    }
}

/// Adding a row raises the active count by one exactly when the row is
/// connecting, downloading or seeding, and leaves it unchanged otherwise.
pub proof fn law_active_count_step(s: Seq<TorrentInfo>, t: TorrentInfo)
    ensures
        t.state@ == "connecting"@ || t.state@ == "downloading"@ || t.state@ == "seeding"@
            ==> active_count(s.push(t)) == active_count(s) + 1,
        !(t.state@ == "connecting"@ || t.state@ == "downloading"@ || t.state@ == "seeding"@)
            ==> active_count(s.push(t)) == active_count(s),
{
    assert(s.push(t).drop_last() =~= s);
}

/// The toolbar's totals.
#[derive(Clone, Copy, Debug)]
pub struct TransferSummary {
    pub active: usize,
    pub queued: usize,
    pub download_speed: u128,
    pub upload_speed: u128,
}

proof fn lemma_totals_bounded(s: Seq<TorrentInfo>)
    ensures
        active_count(s) <= s.len(),
        queued_count(s) <= s.len(),
        total_download(s) <= s.len() * (u64::MAX as nat),
        total_upload(s) <= s.len() * (u64::MAX as nat),
    decreases s.len(),
{
    if s.len() > 0 {
        lemma_totals_bounded(s.drop_last());
        let n = s.len();
        assert((n - 1) * (u64::MAX as nat) + (u64::MAX as nat) == n * (u64::MAX as nat))
            by (nonlinear_arith);
    }
}

/// The number of active and queued rows and the total speeds, as the
/// toolbar shows them.
pub fn transfer_summary(torrents: &Vec<TorrentInfo>) -> (r: TransferSummary)
    ensures
        r.active == active_count(torrents@),
        r.queued == queued_count(torrents@),
        r.download_speed == total_download(torrents@),
        r.upload_speed == total_upload(torrents@),
{
    let mut active: usize = 0;
    let mut queued: usize = 0;
    let mut down: u128 = 0;
    let mut up: u128 = 0;
    let mut i: usize = 0;
    while i < torrents.len()
        invariant
            i <= torrents@.len(),
            active == active_count(torrents@.take(i as int)),
            queued == queued_count(torrents@.take(i as int)),
            down == total_download(torrents@.take(i as int)),
            up == total_upload(torrents@.take(i as int)),
        decreases torrents@.len() - i,
    {
        let ghost s = torrents@.take(i + 1);
        proof {
            assert(s.drop_last() =~= torrents@.take(i as int));
            assert(s.last() == torrents@[i as int]);
            lemma_totals_bounded(s);
            assert(s.len() * (u64::MAX as nat) <= (usize::MAX as nat) * (u64::MAX as nat))
                by (nonlinear_arith)
                requires
                    s.len() <= usize::MAX,
            ;
            assert((usize::MAX as nat) * (u64::MAX as nat) <= u128::MAX) by (nonlinear_arith)
                requires
                    usize::MAX <= u64::MAX,
            ;
        }
        let t = &torrents[i];
        let st = t.state.as_str();
        if str_equal(st, "connecting") || str_equal(st, "downloading") || str_equal(st, "seeding") {
            active = active + 1;
        }
        if str_equal(st, "queued") {
            queued = queued + 1;
        }
        down = down + t.download_speed as u128;
        up = up + t.upload_speed as u128;
        i = i + 1;
    }
    assert(torrents@.take(torrents@.len() as int) =~= torrents@);
    TransferSummary { active, queued, download_speed: down, upload_speed: up }
}

} // verus!
