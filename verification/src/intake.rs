//! What an added input names (a `.torrent` file, a magnet link or an HTTP
//! download) and where a `.torrent` file's data goes.

use vstd::prelude::*;
use crate::paths::{
    candidate_path, file_segment, is_plain_file_path, is_remote_uri, is_simple_path, is_join_of,
    is_torrent_ext, last_segment,
    name_extension, local_torrent_path, path_join,
    safe_folder_name, safe_folder_text, shows_torrent_extension,
};
use crate::text::{chars_of, chars_start_with, starts_with, trim, trimmed};

verus! {

/// What an input names.
#[derive(Clone, Debug)]
pub enum UriSource {
    /// A local `.torrent` file at this path.
    TorrentFile(String),
    /// A magnet link.
    Magnet(String),
    /// An HTTP or HTTPS download.
    Http(String),
}

/// Why an input cannot be added.
#[derive(Debug)]
pub enum AddError {
    /// The input is blank.
    MissingUri,
    /// The input is neither a link nor a `.torrent` file.
    UnsupportedInput,
    /// The `.torrent` file does not parse; gosh-dl's message.
    InvalidTorrent(String),
}

impl AddError {
    /// The message shown for this error.
    pub fn message(&self) -> (m: String)
        ensures
            self is MissingUri ==> m@ == "a magnet URI or HTTP(S) URL is required"@,
            self is UnsupportedInput ==> m@
                == "unsupported input; use magnet:, http://, https://, or a .torrent file path"@,
            self matches AddError::InvalidTorrent(t) ==> m@ == t@,
    {
        match self {
            AddError::MissingUri => crate::text::owned("a magnet URI or HTTP(S) URL is required"),
            AddError::UnsupportedInput => crate::text::owned(
                "unsupported input; use magnet:, http://, https://, or a .torrent file path",
            ),
            AddError::InvalidTorrent(t) => t.clone(),
        }
    }
}

/// What an added input names. Surrounding white space is ignored; a blank
/// input is refused; a local `.torrent` path is a torrent file; a link
/// that starts with `magnet:` is a magnet link; one that starts with
/// `http://` or `https://` is an HTTP download; anything else is refused.
pub fn classify_uri(uri: &str) -> (r: Result<UriSource, AddError>)
    ensures
        (r matches Err(AddError::MissingUri)) <==> trimmed(uri@).len() == 0,
        r matches Err(AddError::InvalidTorrent(_)) ==> false,
        starts_with(trimmed(uri@), "magnet:"@) ==> (r matches Ok(UriSource::Magnet(u)) && u@
            == trimmed(uri@)),
        (starts_with(trimmed(uri@), "http://"@) || starts_with(trimmed(uri@), "https://"@))
            ==> (r matches Ok(UriSource::Http(u)) && u@ == trimmed(uri@)),
        r matches Ok(UriSource::TorrentFile(p)) ==> !is_remote_uri(trimmed(uri@)) && p@
            == candidate_path(trimmed(uri@)) && shows_torrent_extension(p@),
        r matches Ok(UriSource::Magnet(_)) ==> starts_with(trimmed(uri@), "magnet:"@),
        r matches Ok(UriSource::Http(_)) ==> starts_with(trimmed(uri@), "http://"@)
            || starts_with(trimmed(uri@), "https://"@),
        trimmed(uri@).len() > 0 && !is_remote_uri(trimmed(uri@)) && !candidate_path(
            trimmed(uri@),
        ).contains('.') ==> (r matches Err(AddError::UnsupportedInput)),
        trimmed(uri@).len() > 0 && !is_remote_uri(trimmed(uri@)) && is_simple_path(
            candidate_path(trimmed(uri@)),
        ) ==> if is_torrent_ext(name_extension(last_segment(candidate_path(trimmed(uri@))))) {
            r is Ok && r->Ok_0 is TorrentFile
        } else {
            r matches Err(AddError::UnsupportedInput)
        },
        trimmed(uri@).len() > 0 && !is_remote_uri(trimmed(uri@)) && is_plain_file_path(
            candidate_path(trimmed(uri@)),
        ) && name_extension(file_segment(candidate_path(trimmed(uri@)))) is Some ==> if is_torrent_ext(
            name_extension(file_segment(candidate_path(trimmed(uri@)))),
        ) {
            r is Ok && r->Ok_0 is TorrentFile
        } else {
            r matches Err(AddError::UnsupportedInput)
        },
        trimmed(uri@).len() > 0 && !is_remote_uri(trimmed(uri@)) && is_plain_file_path(
            candidate_path(trimmed(uri@)),
        ) && !file_segment(candidate_path(trimmed(uri@))).contains('.') ==> (r matches Err(
            AddError::UnsupportedInput,
        )),
{
    let t = trim(uri);
    proof {
        reveal_strlit("magnet:");
        reveal_strlit("http://");
        reveal_strlit("https://");
        let s = t@;
        if starts_with(s, "http://"@) || starts_with(s, "https://"@) {
            assert(s.subrange(0, 1)[0] == s[0]);
            assert(s[0] == 'h');
            if starts_with(s, "magnet:"@) {
                assert(s.subrange(0, "magnet:"@.len() as int)[0] == s[0]);
            }
        }
    }
    let local = if chars_of(t.as_str()).len() == 0 {
        None
    } else {
        local_torrent_path(t.as_str())
    };
    classify_trimmed(t, local)
}

/// What a trimmed input `t` names, given the local `.torrent` path found
/// for it (`local`): a blank input is refused; a local path is a torrent
/// file; a link that starts with `magnet:` is a magnet link; one that
/// starts with `http://` or `https://` is an HTTP download; anything else is
/// refused.
pub fn classify_trimmed(t: String, local: Option<String>) -> (r: Result<UriSource, AddError>)
    ensures
        t@.len() == 0 ==> r matches Err(AddError::MissingUri),
        t@.len() > 0 && local is Some ==> (r matches Ok(UriSource::TorrentFile(p)) && p
            == local->0),
        t@.len() > 0 && local is None && starts_with(t@, "magnet:"@) ==> (r matches Ok(
            UriSource::Magnet(u),
        ) && u@ == t@),
        t@.len() > 0 && local is None && !starts_with(t@, "magnet:"@) && (starts_with(
            t@,
            "http://"@,
        ) || starts_with(t@, "https://"@)) ==> (r matches Ok(UriSource::Http(u)) && u@ == t@),
        t@.len() > 0 && local is None && !starts_with(t@, "magnet:"@) && !starts_with(
            t@,
            "http://"@,
        ) && !starts_with(t@, "https://"@) ==> r matches Err(AddError::UnsupportedInput),
{
    let v = chars_of(t.as_str());
    proof {
        reveal_strlit("magnet:");
        reveal_strlit("http://");
        reveal_strlit("https://");
        let s = t@;
        if starts_with(s, "http://"@) || starts_with(s, "https://"@) {
            assert(s.subrange(0, 1)[0] == s[0]);
            assert(s[0] == 'h');
            if starts_with(s, "magnet:"@) {
                assert(s.subrange(0, "magnet:"@.len() as int)[0] == s[0]);
            }
        }
    }
    if v.len() == 0 {
        return Err(AddError::MissingUri);
    }
    if let Some(path) = local {
        return Ok(UriSource::TorrentFile(path));
    }
    if chars_start_with(&v, &chars_of("magnet:")) {
        Ok(UriSource::Magnet(t))
    } else if chars_start_with(&v, &chars_of("http://")) || chars_start_with(
        &v,
        &chars_of("https://"),
    ) {
        Ok(UriSource::Http(t))
    } else {
        Err(AddError::UnsupportedInput)
    }
}

// ---------------------------------------------------------------------
// Declared file lengths
// ---------------------------------------------------------------------

/// Whether `b` is an ASCII digit.
pub open spec fn is_digit_byte(b: u8) -> bool {
    48 <= b && b <= 57
}

/// Whether every byte of `s` is an ASCII digit.
pub open spec fn all_digits(s: Seq<u8>) -> bool {
    forall|m: int| 0 <= m < s.len() ==> is_digit_byte(#[trigger] s[m])
}

/// The value of some ASCII digits, most significant first.
pub open spec fn bytes_decimal(s: Seq<u8>) -> nat
    decreases s.len(),
{
    if s.len() == 0 {
        0
    } else {
        bytes_decimal(s.drop_last()) * 10 + (s.last() - 48) as nat
    }
}

/// How far from position `j` of `d` the first byte `b` stands, if any.
pub open spec fn offset_of(d: Seq<u8>, j: int, b: u8) -> Option<nat>
    decreases d.len() - j,
{
    if 0 <= j < d.len() {
        if d[j] == b {
            Some(0)
        } else {
            match offset_of(d, j + 1, b) {
                Some(o) => Some(o + 1),
                None => None,
            }
        }
    } else {
        None
    }
}

/// The bytes `length`.
pub open spec fn length_word() -> Seq<u8> {
    seq![108u8, 101u8, 110u8, 103u8, 116u8, 104u8]
}

/// The file length that the text `t` of a bencode integer gives: its
/// digits, after an optional `+`, where they fit in an `i64`; otherwise
/// none (a negative or malformed integer, or one that gosh-dl refuses to
/// read, adds nothing).
pub open spec fn length_value(t: Seq<u8>) -> nat {
    let digits = if t.len() > 0 && t[0] == 43u8 {
        t.drop_first()
    } else {
        t
    };
    if digits.len() > 0 && all_digits(digits) && bytes_decimal(digits) <= i64::MAX {
        bytes_decimal(digits)
    } else {
        0
    }
}

/// A byte that [`offset_of`] finds stands inside `d` and is `b`.
pub proof fn lemma_offset_of(d: Seq<u8>, j: int, b: u8)
    ensures
        offset_of(d, j, b) matches Some(o) ==> 0 <= j && j + o < d.len() && d[j + o] == b,
    decreases d.len() - j,
{
    if 0 <= j < d.len() && d[j] != b {
        lemma_offset_of(d, j + 1, b);
    }
}

/// The sum of the file lengths that `d` declares, reading it as bencode
/// tokens from position `i` on: an integer (`i`..`e`) that comes right
/// after the string `length` adds its value; a string (digits, `:`, that
/// many bytes) is skipped whole, so the bytes inside it add nothing; any
/// other byte (`l`, `d`, `e`, the `+` that may lead a dictionary key) is
/// passed over. `after_key` tells whether the token before `i` was the
/// string `length`. Where the tokens stop making sense the reading ends.
pub open spec fn declared_length_total(d: Seq<u8>, i: int, after_key: bool) -> nat
    decreases d.len() - i,
{
    if 0 <= i < d.len() {
        if d[i] == 105u8 {
            match offset_of(d, i + 1, 101u8) {
                Some(o) => {
                    proof {
                        lemma_offset_of(d, i + 1, 101u8);
                    }
                    let k = i + 1 + o;
                    (if after_key {
                        length_value(d.subrange(i + 1, k))
                    } else {
                        0
                    }) + declared_length_total(d, k + 1, false)
                },
                None => 0,
            }
        } else if is_digit_byte(d[i]) {
            match offset_of(d, i, 58u8) {
                Some(o) => {
                    let c = i + o;
                    let n = bytes_decimal(d.subrange(i, c));
                    if all_digits(d.subrange(i, c)) && c + 1 + n <= d.len() {
                        declared_length_total(
                            d,
                            c + 1 + n,
                            d.subrange(c + 1, c + 1 + n) == length_word(),
                        )
                    } else {
                        0
                    }
                },
                None => 0,
            }
        } else {
            declared_length_total(d, i + 1, false)
        }
    } else {
        0
    }
}

/// Whether all the file lengths that `d` declares fit in a `u64` together.
pub open spec fn declared_lengths_fit(d: Seq<u8>) -> bool {
    declared_length_total(d, 0, false) <= u64::MAX
}

proof fn lemma_bytes_decimal_prefix(s: Seq<u8>, m: int)
    requires
        0 <= m <= s.len(),
    ensures
        bytes_decimal(s.take(m)) <= bytes_decimal(s),
    decreases s.len(),
{
    if m < s.len() {
        lemma_bytes_decimal_prefix(s.drop_last(), m);
        assert(s.drop_last().take(m) =~= s.take(m));
    } else {
        assert(s.take(m) =~= s);
    }
}

/// The position of the first byte `b` in `data` from `j` on.
fn find_byte(data: &[u8], j: usize, b: u8) -> (r: Option<usize>)
    requires
        j <= data@.len(),
    ensures
        r matches Some(k) ==> j <= k < data@.len() && offset_of(data@, j as int, b) == Some(
            (k - j) as nat,
        ),
        r is None ==> offset_of(data@, j as int, b) is None,
{
    let mut k = j;
    while k < data.len()
        invariant
            j <= k <= data@.len(),
            offset_of(data@, j as int, b) == match offset_of(data@, k as int, b) {
                Some(o) => Some((o + (k - j)) as nat),
                None => None::<nat>,
            },
        decreases data@.len() - k,
    {
        if data[k] == b {
            return Some(k);
        }
        k = k + 1;
    }
    None
}

/// Whether the bytes of `data` from `j` to `e` are all ASCII digits.
fn all_digits_between(data: &[u8], j: usize, e: usize) -> (r: bool)
    requires
        j <= e <= data@.len(),
    ensures
        r == all_digits(data@.subrange(j as int, e as int)),
{
    let ghost s = data@.subrange(j as int, e as int);
    let mut k = j;
    while k < e
        invariant
            j <= k <= e <= data@.len(),
            s == data@.subrange(j as int, e as int),
            forall|m: int| j <= m < k ==> is_digit_byte(#[trigger] data@[m]),
        decreases e - k,
    {
        if !(48 <= data[k] && data[k] <= 57) {
            assert(s[k - j] == data@[k as int]);
            return false;
        }
        k = k + 1;
    }
    assert forall|m: int| 0 <= m < s.len() implies is_digit_byte(#[trigger] s[m]) by {
        assert(s[m] == data@[j + m]);
    }
    true
}

/// The value of the digits of `data` from `j` to `e`, or `None` where it
/// exceeds `cap`.
fn decimal_within(data: &[u8], j: usize, e: usize, cap: u64) -> (r: Option<u64>)
    requires
        j <= e <= data@.len(),
        all_digits(data@.subrange(j as int, e as int)),
    ensures
        match r {
            Some(v) => v == bytes_decimal(data@.subrange(j as int, e as int)) && v <= cap,
            None => bytes_decimal(data@.subrange(j as int, e as int)) > cap,
        },
{
    let ghost s = data@.subrange(j as int, e as int);
    let mut k = j;
    let mut acc: u64 = 0;
    assert(data@.subrange(j as int, j as int) =~= Seq::<u8>::empty());
    while k < e
        invariant
            j <= k <= e <= data@.len(),
            s == data@.subrange(j as int, e as int),
            all_digits(s),
            acc <= cap,
            acc as nat == bytes_decimal(data@.subrange(j as int, k as int)),
        decreases e - k,
    {
        assert(s[k - j] == data@[k as int]);
        let dv: u64 = (data[k] - 48) as u64;
        let ghost next = data@.subrange(j as int, k + 1);
        proof {
            assert(next.drop_last() =~= data@.subrange(j as int, k as int));
            assert(next.last() == data@[k as int]);
            assert(bytes_decimal(next) == acc * 10 + dv);
        }
        if dv > cap || acc > (cap - dv) / 10 {
            proof {
                assert(acc * 10 + dv > cap) by (nonlinear_arith)
                    requires
                        dv > cap || acc > (cap - dv) / 10,
                        dv <= 9,
                ;
                assert(s.take(k + 1 - j) =~= next);
                lemma_bytes_decimal_prefix(s, k + 1 - j);
            }
            return None;
        }
        proof {
            assert(acc * 10 + dv <= cap) by (nonlinear_arith)
                requires
                    acc <= (cap - dv) / 10,
                    dv <= cap,
            ;
        }
        acc = acc * 10 + dv;
        k = k + 1;
    }
    Some(acc)
}

/// The file length that the integer text of `data` from `j` to `e` gives
/// (see [`length_value`]).
fn length_value_between(data: &[u8], j: usize, e: usize) -> (v: u64)
    requires
        j <= e <= data@.len(),
    ensures
        v == length_value(data@.subrange(j as int, e as int)),
{
    let ghost t = data@.subrange(j as int, e as int);
    let start = if j < e && data[j] == 43 {
        j + 1
    } else {
        j
    };
    proof {
        if j < e && data@[j as int] == 43u8 {
            assert(t[0] == data@[j as int]);
            assert(t.drop_first() =~= data@.subrange(start as int, e as int));
        } else {
            assert(t =~= data@.subrange(start as int, e as int));
        }
    }
    if start == e {
        return 0;
    }
    if !all_digits_between(data, start, e) {
        return 0;
    }
    match decimal_within(data, start, e, 0x7fff_ffff_ffff_ffffu64) {
        Some(v) => v,
        None => 0,
    }
}

/// Whether the bytes of `data` from `j` to `e` are `length`.
fn is_length_word(data: &[u8], j: usize, e: usize) -> (r: bool)
    requires
        j <= e <= data@.len(),
    ensures
        r == (data@.subrange(j as int, e as int) == length_word()),
{
    let ghost s = data@.subrange(j as int, e as int);
    if e - j != 6 {
        assert(s.len() != length_word().len());
        return false;
    }
    let r = data[j] == 108 && data[j + 1] == 101 && data[j + 2] == 110 && data[j + 3] == 103
        && data[j + 4] == 116 && data[j + 5] == 104;
    proof {
        assert(s[0] == data@[j as int] && s[1] == data@[j + 1] && s[2] == data@[j + 2]);
        assert(s[3] == data@[j + 3] && s[4] == data@[j + 4] && s[5] == data@[j + 5]);
        if r {
            assert(s =~= length_word());
        }
    }
    r
}

/// Whether all the file lengths that `data` declares fit in a `u64`
/// together (see [`declared_length_total`] and [`parse_metainfo`]).
pub fn torrent_lengths_fit(data: &[u8]) -> (r: bool)
    ensures
        r == declared_lengths_fit(data@),
{
    let n = data.len();
    let mut total: u64 = 0;
    let mut i: usize = 0;
    let mut after_key = false;
    while i < n
        invariant
            i <= n,
            n == data@.len(),
            total + declared_length_total(data@, i as int, after_key) == declared_length_total(
                data@,
                0,
                false,
            ),
        decreases n - i,
    {
        let b = data[i];
        if b == 105 {
            match find_byte(data, i + 1, 101) {
                None => {
                    return true;
                },
                Some(k) => {
                    proof {
                        assert(offset_of(data@, i + 1, 101u8) == Some((k - i - 1) as nat));
                        assert(declared_length_total(data@, i as int, after_key) == (if after_key {
                            length_value(data@.subrange(i + 1, k as int))
                        } else {
                            0
                        }) + declared_length_total(data@, k + 1, false));
                    }
                    let v: u64 = if after_key {
                        length_value_between(data, i + 1, k)
                    } else {
                        0
                    };
                    if v > u64::MAX - total {
                        return false;
                    }
                    total = total + v;
                    i = k + 1;
                    after_key = false;
                },
            }
        } else if 48 <= b && b <= 57 {
            match find_byte(data, i, 58) {
                None => {
                    return true;
                },
                Some(c) => {
                    proof {
                        assert(offset_of(data@, i as int, 58u8) == Some((c - i) as nat));
                    }
                    if !all_digits_between(data, i, c) {
                        return true;
                    }
                    match decimal_within(data, i, c, (n - c - 1) as u64) {
                        None => {
                            return true;
                        },
                        Some(len) => {
                            let end = c + 1 + len as usize;
                            let key = is_length_word(data, c + 1, end);
                            proof {
                                assert(declared_length_total(data@, i as int, after_key)
                                    == declared_length_total(data@, end as int, key));
                            }
                            after_key = key;
                            i = end;
                        },
                    }
                },
            }
        } else {
            i = i + 1;
            after_key = false;
        }
    }
    true
}

/// What the save-directory decision reads of a `.torrent` file.
#[derive(Clone, Debug)]
pub struct TorrentMeta {
    /// The torrent's suggested name.
    pub name: String,
    /// Whether the torrent holds a single file.
    pub single_file: bool,
}

/// What gosh-dl's `Metainfo::parse` makes of a `.torrent` file: the
/// torrent's name and single-file flag, or the message of the error with
/// which it refuses the data.
pub uninterp spec fn torrent_metainfo(data: Seq<u8>) -> Result<(Seq<char>, bool), Seq<char>>;

/// `Metainfo::parse(data)` of gosh-dl, reduced to the torrent's name and
/// single-file flag, or to the error's message (`to_string`). The bencode
/// parsing is not stated: its result is named by [`torrent_metainfo`].
///
/// gosh-dl adds up the file lengths of a multi-file torrent in a `u64`
/// (`offset += length`), which panics in builds with overflow checks when
/// they exceed `u64::MAX` together, so the call is made only for data whose
/// declared lengths fit together ([`declared_lengths_fit`]). On data that
/// gosh-dl parses, its parser reads the same tokens in the same order as
/// [`declared_length_total`]: an integer from `i` to the first `e`, a string
/// from its digits to the first `:` and then that many bytes, `l`, `d` and
/// `e` alone, and a dictionary key that `usize::from_str` reads with a
/// leading `+`. Each file length is such an integer right after the key
/// `length`, and gosh-dl reads it with `i64::from_str` (so it is at most
/// `i64::MAX`, and a `+` may lead it). The sum therefore counts every length
/// that gosh-dl adds up, and rules out more only for data in which other
/// integers after a string `length` (the length of a single-file torrent,
/// or one in some other dictionary or list) bring the total past `u64::MAX`.
#[verifier::external_body]
fn parse_metainfo(data: &[u8]) -> (r: Result<TorrentMeta, String>)
    requires
        declared_lengths_fit(data@),
    ensures
        match r {
            Ok(m) => torrent_metainfo(data@) == Ok::<(Seq<char>, bool), Seq<char>>(
                (m.name@, m.single_file),
            ),
            Err(t) => torrent_metainfo(data@) == Err::<(Seq<char>, bool), Seq<char>>(t@),
        },
{
    match gosh_dl::torrent::Metainfo::parse(data) {
        Ok(m) => Ok(TorrentMeta { name: m.info.name, single_file: m.info.is_single_file }),
        Err(e) => Err(e.to_string()),
    }
}

/// Where a torrent's data goes: a directory the user asked for stays; a
/// multi-file torrent keeps the engine's layout (no directory); a
/// single-file torrent gets a folder of its own, named after the torrent,
/// in the default download directory.
pub fn choose_save_dir(requested: Option<String>, meta: &TorrentMeta, default_dir: &str) -> (r:
    Option<String>)
    ensures
        requested is Some || !meta.single_file ==> r == requested,
        requested is None && meta.single_file ==> (r matches Some(d) && is_join_of(
            default_dir@,
            safe_folder_text(meta.name@),
            d@,
        )),
{
    if requested.is_none() && meta.single_file {
        let folder = safe_folder_name(meta.name.as_str());
        proof {
            crate::paths::lemma_safe_folder_text_is_safe(meta.name@);
            lemma_safe_folder_is_plain(meta.name@);
        }
        Some(path_join(default_dir, folder.as_str()))
    } else {
        requested
    }
}

/// A safe folder name is a plain path segment.
pub proof fn lemma_safe_folder_is_plain(name: Seq<char>)
    ensures
        crate::paths::is_plain_segment(safe_folder_text(name)),
        crate::paths::is_join_child(safe_folder_text(name)),
{
    let f = safe_folder_text(name);
    crate::paths::lemma_safe_folder_text_is_safe(name);
    if f.contains('/') {
        let i = choose|i: int| 0 <= i < f.len() && f[i] == '/';
        assert(!crate::paths::is_reserved_char(f[i]));
    }
    if f.contains('\\') {
        let i = choose|i: int| 0 <= i < f.len() && f[i] == '\\';
        assert(!crate::paths::is_reserved_char(f[i]));
    }
    if f.contains(':') {
        let i = choose|i: int| 0 <= i < f.len() && f[i] == ':';
        assert(!crate::paths::is_reserved_char(f[i]));
    }
    assert(f != seq!['.']) by {
        if f == seq!['.'] {
            assert(f.last() == '.');
        }
    }
    assert(f != seq!['.', '.']) by {
        if f == seq!['.', '.'] {
            assert(f.last() == '.');
        }
    }
    crate::paths::lemma_plain_segment_is_join_child(f);
}

/// Reads the `.torrent` data and decides where its data goes (see
/// [`choose_save_dir`]); data that gosh-dl cannot parse is refused. The
/// declared file lengths must fit in a `u64` together (test with
/// [`torrent_lengths_fit`]), where gosh-dl's parser would overflow.
pub fn torrent_file_save_dir(data: &[u8], requested: Option<String>, default_dir: &str) -> (r:
    Result<Option<String>, AddError>)
    requires
        declared_lengths_fit(data@),
    ensures
        r is Err <==> torrent_metainfo(data@) is Err,
        r matches Err(e) ==> (e matches AddError::InvalidTorrent(t) && torrent_metainfo(data@)
            == Err::<(Seq<char>, bool), Seq<char>>(t@)),
        r matches Ok(dir) ==> {
            let (name, single) = torrent_metainfo(data@)->Ok_0;
            &&& requested is Some || !single ==> dir == requested
            &&& requested is None && single ==> (dir matches Some(d) && is_join_of(
                default_dir@,
                safe_folder_text(name),
                d@,
            ))
        },
{
    match parse_metainfo(data) {
        Ok(meta) => Ok(choose_save_dir(requested, &meta, default_dir)),
        Err(e) => Err(AddError::InvalidTorrent(e)),
    }
}

} // verus!
