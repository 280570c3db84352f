//! The download options form: the text the user typed, and the options
//! that it stands for.

use vstd::prelude::*;
use crate::text::{
    chars_of, eq_ignore_ascii_case, is_blank_text, parse_decimal, parse_unsigned, split_on, split_once,
    split_once_text, split_text, str_eq_ignore_ascii_case, trim, trimmed, views,
};

verus! {

/// Download priority, as gosh-dl orders downloads.
#[derive(Clone, Copy, Debug, PartialEq, Eq, Structural)]
pub enum Priority {
    Low,
    Normal,
    High,
    Critical,
}

/// Whether every character of `s` is ASCII.
pub open spec fn all_ascii(s: Seq<char>) -> bool {
    forall|i: int| 0 <= i < s.len() ==> (#[trigger] s[i] as u32) < 0x80
}

/// The priority that an ASCII text names: a level name in any ASCII case,
/// or its number.
pub open spec fn priority_named(s: Seq<char>) -> Option<Priority> {
    if eq_ignore_ascii_case(s, "low"@) || s == "-1"@ {
        Some(Priority::Low)
    } else if eq_ignore_ascii_case(s, "normal"@) || s == "0"@ {
        Some(Priority::Normal)
    } else if eq_ignore_ascii_case(s, "high"@) || s == "1"@ {
        Some(Priority::High)
    } else if eq_ignore_ascii_case(s, "critical"@) || s == "2"@ {
        Some(Priority::Critical)
    } else {
        None
    }
}

/// `DownloadPriority::from_str(text)` of gosh-dl, which lower-cases the
/// text (`str::to_lowercase`) and matches `low`/`-1`, `normal`/`0`,
/// `high`/`1`, `critical`/`2`. For ASCII text Unicode lower-casing is ASCII
/// lower-casing, so the contract states the result there. Text with any
/// other character matches nothing: the only character outside ASCII whose
/// lower case lies in ASCII is the Kelvin sign (to `k`), and no accepted
/// word holds a `k`.
#[verifier::external_body]
fn priority_from_text(text: &str) -> (p: Option<Priority>)
    ensures
        all_ascii(text@) ==> p == priority_named(text@),
        !all_ascii(text@) ==> p is None,
{
    match text.parse::<gosh_dl::DownloadPriority>() {
        Ok(gosh_dl::DownloadPriority::Low) => Some(Priority::Low),
        Ok(gosh_dl::DownloadPriority::Normal) => Some(Priority::Normal),
        Ok(gosh_dl::DownloadPriority::High) => Some(Priority::High),
        Ok(gosh_dl::DownloadPriority::Critical) => Some(Priority::Critical),
        Err(_) => None,
    }
}

/// `DownloadPriority::default()` of gosh-dl, whose source marks `Normal`
/// as the default variant.
#[verifier::external_body]
fn default_priority() -> (p: Priority)
    ensures
        p == Priority::Normal,
{
    match gosh_dl::DownloadPriority::default() {
        gosh_dl::DownloadPriority::Low => Priority::Low,
        gosh_dl::DownloadPriority::Normal => Priority::Normal,
        gosh_dl::DownloadPriority::High => Priority::High,
        gosh_dl::DownloadPriority::Critical => Priority::Critical,
    }
}

/// The priority that a field's trimmed text names, `Normal` when it names
/// none.
pub open spec fn priority_of_text(t: Seq<char>) -> Priority {
    if all_ascii(t) {
        match priority_named(t) {
            Some(q) => q,
            None => Priority::Normal,
        }
    } else {
        Priority::Normal
    }
}

/// The priority a form field asks for: the trimmed text parsed as a
/// priority, `Normal` when it names none.
pub fn priority_choice(text: &str) -> (p: Priority)
    ensures
        p == priority_of_text(trimmed(text@)),
{
    let t = trim(text);
    match priority_from_text(t.as_str()) {
        Some(p) => p,
        None => default_priority(),
    }
}

// ---------------------------------------------------------------------
// Lists
// ---------------------------------------------------------------------

/// The trimmed pieces that are not blank, in order.
pub open spec fn nonblank_pieces(ps: Seq<Seq<char>>) -> Seq<Seq<char>>
    decreases ps.len(),
{
    if ps.len() == 0 {
        Seq::empty()
    } else {
        let r = nonblank_pieces(ps.drop_last());
        let t = trimmed(ps.last());
        if t.len() > 0 {
            r.push(t)
        } else {
            r
        }
    }
}

/// The comma-separated entries of `v`, trimmed, blanks dropped.
pub open spec fn list_entries(v: Seq<char>) -> Seq<Seq<char>> {
    nonblank_pieces(split_on(v, ','))
}

/// The comma-separated entries of `value`, trimmed, with blank entries
/// dropped.
pub fn split_list(value: &str) -> (entries: Vec<String>)
    ensures
        views(entries@) == list_entries(value@),
{
    let pieces = split_text(value, ',');
    let mut out: Vec<String> = Vec::new();
    let mut i: usize = 0;
    while i < pieces.len()
        invariant
            i <= pieces@.len(),
            views(pieces@) == split_on(value@, ','),
            views(out@) == nonblank_pieces(views(pieces@).take(i as int)),
        decreases pieces@.len() - i,
    {
        let t = trim(pieces[i].as_str());
        let ghost ps = views(pieces@);
        proof {
            assert(ps.take(i + 1).drop_last() =~= ps.take(i as int));
            assert(ps.take(i + 1).last() == pieces@[i as int]@);
        }
        if chars_of(t.as_str()).len() > 0 {
            let ghost before = views(out@);
            out.push(t);
            assert(views(out@) =~= before.push(t@));
        }
        i = i + 1;
    }
    assert(views(pieces@).take(pieces@.len() as int) =~= views(pieces@));
    out
}

/// `Some(entries)` when there is at least one entry, else `None`.
pub fn nonempty_list(value: &str) -> (r: Option<Vec<String>>)
    ensures
        match r {
            Some(v) => views(v@) == list_entries(value@) && v@.len() > 0,
            None => list_entries(value@).len() == 0,
        },
{
    let values = split_list(value);
    if values.len() == 0 {
        None
    } else {
        Some(values)
    }
}

/// The values of the entries that parse as an index, in order.
pub open spec fn parsed_indices(ps: Seq<Seq<char>>) -> Seq<nat>
    decreases ps.len(),
{
    if ps.len() == 0 {
        Seq::empty()
    } else {
        let r = parsed_indices(ps.drop_last());
        match parse_unsigned(trimmed(ps.last()), usize::MAX as nat) {
            Some(n) => r.push(n),
            None => r,
        }
    }
}

/// The digits of a list entry: its trimmed text without one leading `+`.
pub open spec fn entry_digits(e: Seq<char>) -> Seq<char> {
    let t = trimmed(e);
    if t.len() > 0 && t[0] == '+' {
        t.drop_first()
    } else {
        t
    }
}

/// Whether `d` is a non-empty run of ASCII digits.
pub open spec fn is_decimal_text(d: Seq<char>) -> bool {
    d.len() > 0 && forall|i: int| 0 <= i < d.len() ==> '0' <= #[trigger] d[i] <= '9'
}

/// Each entry whose trimmed text is a decimal number (ASCII digits, after
/// at most one `+`) of at most `usize::MAX` adds that number to the end of
/// the indices; any other entry adds nothing.
pub proof fn law_index_entry(ps: Seq<Seq<char>>, e: Seq<char>)
    ensures
        is_decimal_text(entry_digits(e)) && crate::text::digits_value(entry_digits(e))
            <= usize::MAX ==> parsed_indices(ps.push(e)) == parsed_indices(ps).push(
            crate::text::digits_value(entry_digits(e)),
        ),
        !(is_decimal_text(entry_digits(e)) && crate::text::digits_value(entry_digits(e))
            <= usize::MAX) ==> parsed_indices(ps.push(e)) == parsed_indices(ps),
{
    assert(ps.push(e).drop_last() =~= ps);
    assert(ps.push(e).last() == e);
    let d = entry_digits(e);
    assert(d == crate::text::unsigned_digits(trimmed(e)));
    assert(is_decimal_text(d) == (d.len() > 0 && crate::text::all_digits(d))) by {
        if crate::text::all_digits(d) {
            assert forall|i: int| 0 <= i < d.len() implies '0' <= #[trigger] d[i] <= '9' by {
                assert(crate::text::is_digit(d[i]));
            }
        }
        if is_decimal_text(d) {
            assert forall|i: int| 0 <= i < d.len() implies crate::text::is_digit(#[trigger] d[i]) by {
                assert('0' <= d[i] <= '9');
            }
        }
    }
}

/// The comma-separated indices in `value`; entries that are not indices
/// are skipped, and no index at all gives `None`.
pub fn parse_list(value: &str) -> (r: Option<Vec<usize>>)
    ensures
        match r {
            Some(v) => v@.map_values(|x: usize| x as nat) == parsed_indices(split_on(value@, ','))
                && v@.len() > 0,
            None => parsed_indices(split_on(value@, ',')).len() == 0,
        },
{
    let pieces = split_text(value, ',');
    let mut out: Vec<usize> = Vec::new();
    let mut i: usize = 0;
    while i < pieces.len()
        invariant
            i <= pieces@.len(),
            views(pieces@) == split_on(value@, ','),
            out@.map_values(|x: usize| x as nat) == parsed_indices(views(pieces@).take(i as int)),
        decreases pieces@.len() - i,
    {
        let t = trim(pieces[i].as_str());
        let ghost ps = views(pieces@);
        proof {
            assert(ps.take(i + 1).drop_last() =~= ps.take(i as int));
            assert(ps.take(i + 1).last() == pieces@[i as int]@);
        }
        let parsed = parse_decimal(t.as_str(), usize::MAX as u64);
        match parsed {
            Some(n) => {
                let ghost before = out@.map_values(|x: usize| x as nat);
                out.push(n as usize);
                assert(out@.map_values(|x: usize| x as nat) =~= before.push(n as nat));
            },
            None => {},
        }
        i = i + 1;
    }
    assert(views(pieces@).take(pieces@.len() as int) =~= views(pieces@));
    if out.len() == 0 {
        None
    } else {
        Some(out)
    }
}

/// The `key:value` entries, each side trimmed; entries without `:` are
/// skipped.
pub open spec fn header_pairs(ps: Seq<Seq<char>>) -> Seq<(Seq<char>, Seq<char>)>
    decreases ps.len(),
{
    if ps.len() == 0 {
        Seq::empty()
    } else {
        let r = header_pairs(ps.drop_last());
        match split_once(ps.last(), ':') {
            Some((k, v)) => r.push((trimmed(k), trimmed(v))),
            None => r,
        }
    }
}

/// The views of a list of pairs of strings.
pub open spec fn pair_views(v: Seq<(String, String)>) -> Seq<(Seq<char>, Seq<char>)> {
    v.map_values(|p: (String, String)| (p.0@, p.1@))
}

/// The comma-separated `key:value` headers in `value`.
pub fn parse_headers(value: &str) -> (headers: Vec<(String, String)>)
    ensures
        pair_views(headers@) == header_pairs(split_on(value@, ',')),
{
    let pieces = split_text(value, ',');
    let mut out: Vec<(String, String)> = Vec::new();
    let mut i: usize = 0;
    while i < pieces.len()
        invariant
            i <= pieces@.len(),
            views(pieces@) == split_on(value@, ','),
            pair_views(out@) == header_pairs(views(pieces@).take(i as int)),
        decreases pieces@.len() - i,
    {
        let ghost ps = views(pieces@);
        proof {
            assert(ps.take(i + 1).drop_last() =~= ps.take(i as int));
            assert(ps.take(i + 1).last() == pieces@[i as int]@);
        }
        match split_once_text(pieces[i].as_str(), ':') {
            Some((k, v)) => {
                let key = trim(k.as_str());
                let val = trim(v.as_str());
                let ghost before = pair_views(out@);
                out.push((key, val));
                assert(pair_views(out@) =~= before.push((key@, val@)));
            },
            None => {},
        }
        i = i + 1;
    }
    assert(views(pieces@).take(pieces@.len() as int) =~= views(pieces@));
    out
}

// ---------------------------------------------------------------------
// The form
// ---------------------------------------------------------------------

/// The text of each field of the download options form.
#[derive(Clone, Debug)]
pub struct DownloadForm {
    pub save_dir: String,
    pub filename: String,
    pub user_agent: String,
    pub referer: String,
    pub headers: String,
    pub cookies: String,
    pub mirrors: String,
    pub max_connections: String,
    pub max_download_speed: String,
    pub max_upload_speed: String,
    pub seed_ratio: String,
    pub selected_files: String,
    pub priority: String,
    pub start_paused: String,
    pub sequential: String,
    pub seed_after: String,
}

/// How long a finished torrent keeps seeding.
#[derive(Clone, Debug)]
pub enum SeedRatio {
    /// Seeding after completion is switched off (a ratio of zero).
    NoSeeding,
    /// The trimmed ratio text, to be read as a decimal number.
    FromText(String),
}

/// The options that a filled-in form stands for.
#[derive(Clone, Debug)]
pub struct DownloadPlan {
    pub start_paused: bool,
    pub sequential: Option<bool>,
    pub save_dir: Option<String>,
    pub filename: Option<String>,
    pub user_agent: Option<String>,
    pub referer: Option<String>,
    pub max_connections: Option<usize>,
    pub max_download_speed: Option<u64>,
    pub max_upload_speed: Option<u64>,
    pub seed_ratio: SeedRatio,
    pub selected_files: Option<Vec<usize>>,
    pub priority: Priority,
    pub mirrors: Vec<String>,
    pub cookies: Option<Vec<String>>,
    pub headers: Vec<(String, String)>,
}

/// A text field that counts only when it is not blank; its text is kept
/// as typed.
pub open spec fn optional_text(s: Seq<char>) -> Option<Seq<char>> {
    if trimmed(s).len() == 0 {
        None
    } else {
        Some(s)
    }
}

/// The view of an optional string.
pub open spec fn opt_view(o: Option<String>) -> Option<Seq<char>> {
    match o {
        Some(s) => Some(s@),
        None => None,
    }
}

/// A yes/no field: `true` in any ASCII case, after trimming.
pub open spec fn says_true(s: Seq<char>) -> bool {
    eq_ignore_ascii_case(trimmed(s), "true"@)
}

/// A number field, trimmed and parsed; anything else is no value.
pub open spec fn number_field(s: Seq<char>, max: nat) -> Option<nat> {
    parse_unsigned(trimmed(s), max)
}

/// The view of an optional unsigned number.
pub open spec fn opt_nat_u64(o: Option<u64>) -> Option<nat> {
    match o {
        Some(n) => Some(n as nat),
        None => None,
    }
}

fn text_field(s: &String) -> (r: Option<String>)
    ensures
        opt_view(r) == optional_text(s@),
{
    if is_blank_text(s.as_str()) {
        None
    } else {
        Some(s.clone())
    }
}

fn flag_field(s: &String) -> (r: bool)
    ensures
        r == says_true(s@),
{
    let t = trim(s.as_str());
    str_eq_ignore_ascii_case(t.as_str(), "true")
}

fn u64_field(s: &String) -> (r: Option<u64>)
    ensures
        opt_nat_u64(r) == number_field(s@, u64::MAX as nat),
{
    let t = trim(s.as_str());
    parse_decimal(t.as_str(), u64::MAX)
}

/// The options that `form` stands for.
pub fn make_options(form: &DownloadForm) -> (plan: DownloadPlan)
    ensures
        plan.start_paused == says_true(form.start_paused@),
        plan.sequential == Some(says_true(form.sequential@)),
        opt_view(plan.save_dir) == optional_text(form.save_dir@),
        opt_view(plan.filename) == optional_text(form.filename@),
        opt_view(plan.user_agent) == optional_text(form.user_agent@),
        opt_view(plan.referer) == optional_text(form.referer@),
        match plan.max_connections {
            Some(n) => number_field(form.max_connections@, usize::MAX as nat) == Some(n as nat),
            None => number_field(form.max_connections@, usize::MAX as nat) is None,
        },
        opt_nat_u64(plan.max_download_speed) == number_field(
            form.max_download_speed@,
            u64::MAX as nat,
        ),
        opt_nat_u64(plan.max_upload_speed) == number_field(form.max_upload_speed@, u64::MAX as nat),
        match plan.seed_ratio {
            SeedRatio::NoSeeding => eq_ignore_ascii_case(trimmed(form.seed_after@), "false"@),
            SeedRatio::FromText(t) => !eq_ignore_ascii_case(trimmed(form.seed_after@), "false"@)
                && t@ == trimmed(form.seed_ratio@),
        },
        match plan.selected_files {
            Some(v) => v@.map_values(|x: usize| x as nat) == parsed_indices(
                split_on(form.selected_files@, ','),
            ) && v@.len() > 0,
            None => parsed_indices(split_on(form.selected_files@, ',')).len() == 0,
        },
        plan.priority == priority_of_text(trimmed(form.priority@)),
        views(plan.mirrors@) == list_entries(form.mirrors@),
        match plan.cookies {
            Some(v) => views(v@) == list_entries(form.cookies@) && v@.len() > 0,
            None => list_entries(form.cookies@).len() == 0,
        },
        pair_views(plan.headers@) == header_pairs(split_on(form.headers@, ',')),
{
    let seed_after = trim(form.seed_after.as_str());
    let seed_ratio = if str_eq_ignore_ascii_case(seed_after.as_str(), "false") {
        SeedRatio::NoSeeding
    } else {
        SeedRatio::FromText(trim(form.seed_ratio.as_str()))
    };
    let max_connections = {
        let t = trim(form.max_connections.as_str());
        match parse_decimal(t.as_str(), usize::MAX as u64) {
            Some(n) => Some(n as usize),
            None => None,
        }
    };
    DownloadPlan {
        start_paused: flag_field(&form.start_paused),
        sequential: Some(flag_field(&form.sequential)),
        save_dir: text_field(&form.save_dir),
        filename: text_field(&form.filename),
        user_agent: text_field(&form.user_agent),
        referer: text_field(&form.referer),
        max_connections,
        max_download_speed: u64_field(&form.max_download_speed),
        max_upload_speed: u64_field(&form.max_upload_speed),
        seed_ratio,
        selected_files: parse_list(form.selected_files.as_str()),
        priority: priority_choice(form.priority.as_str()),
        mirrors: split_list(form.mirrors.as_str()),
        cookies: nonempty_list(form.cookies.as_str()),
        headers: parse_headers(form.headers.as_str()),
    }
}

/// A global speed limit field: a positive number of bytes per second, or
/// no limit.
pub open spec fn speed_limit_field(s: Seq<char>) -> Option<nat> {
    match number_field(s, u64::MAX as nat) {
        Some(n) if n > 0 => Some(n),
        _ => None,
    }
}

/// The limit that a global speed limit field asks for.
pub fn speed_limit(text: &String) -> (r: Option<u64>)
    ensures
        opt_nat_u64(r) == speed_limit_field(text@),
{
    match u64_field(text) {
        Some(n) => if n > 0 {
            Some(n)
        } else {
            None
        },
        None => None,
    }
}

} // verus!
