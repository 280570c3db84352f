//! Path decisions: which inputs name a local `.torrent` file, how a
//! torrent name becomes a folder name, and how paths are joined.

use vstd::prelude::*;
use crate::text::{
    ascii_lower_code, chars_of, chars_start_with, eq_ignore_ascii_case, split_on, is_white_space, owned, push_char,
    starts_with, str_eq_ignore_ascii_case, string_from, string_of, trim_end, trim_end_char,
    trim_start, trim_then_strip_end, trimmed,
};

verus! {

// ---------------------------------------------------------------------
// Trusted wrappers over `std::path`
// ---------------------------------------------------------------------

/// Whether `p` has a `.` at position `i` that is followed by `e`.
pub open spec fn dot_then_at(p: Seq<char>, e: Seq<char>, i: int) -> bool {
    &&& 0 <= i
    &&& i + 1 + e.len() <= p.len()
    &&& p[i] == '.'
    &&& p.subrange(i + 1, i + 1 + e.len()) == e
}

/// What holds of every extension that `Path::extension` reports for `p`,
/// on every platform: it holds no `.`, it stands in `p` right after a `.`,
/// and, unless `p` holds a `\` or a `?` (a Windows verbatim path, where
/// `/` is no separator, starts with `\\?\`), it holds no `/`.
pub open spec fn is_extension_of(p: Seq<char>, e: Seq<char>) -> bool {
    &&& !e.contains('.')
    &&& !p.contains('\\') && !p.contains('?') ==> !e.contains('/')
    &&& exists|i: int| dot_then_at(p, e, i)
}

/// A path segment that every platform reads as one plain component: not
/// empty, not `.` or `..`, and free of `/`, `\` and `:`.
pub open spec fn is_plain_segment(s: Seq<char>) -> bool {
    &&& s.len() > 0
    &&& !s.contains('/')
    &&& !s.contains('\\')
    &&& !s.contains(':')
    &&& s != seq!['.']
    &&& s != seq!['.', '.']
}

/// A child that `PathBuf::push` appends as it stands on every platform:
/// not empty, free of `/` and `\`, and without a `:` in second place
/// (which Windows may read as a drive prefix such as `C:`).
pub open spec fn is_join_child(s: Seq<char>) -> bool {
    &&& s.len() > 0
    &&& !s.contains('/')
    &&& !s.contains('\\')
    &&& !(s.len() >= 2 && s[1] == ':')
}

/// A plain segment is a child that every platform appends as it stands.
pub proof fn lemma_plain_segment_is_join_child(s: Seq<char>)
    requires
        is_plain_segment(s),
    ensures
        is_join_child(s),
{
    if s.len() >= 2 && s[1] == ':' {
        assert(s.contains(':'));
    }
}

/// `joined` is `base` and `child` with nothing, `/` or `\` between them.
pub open spec fn joined_at_separator(base: Seq<char>, child: Seq<char>, joined: Seq<char>) -> bool {
    ||| joined == base + child
    ||| joined == base + seq!['/'] + child
    ||| joined == base + seq!['\\'] + child
}

/// The position of the last `c` in `s`.
pub open spec fn last_index_of(s: Seq<char>, c: char) -> Option<int>
    decreases s.len(),
{
    if s.len() == 0 {
        None
    } else if s.last() == c {
        Some(s.len() - 1)
    } else {
        last_index_of(s.drop_last(), c)
    }
}

/// The text after the last `/` of `p` (all of `p` if it has none).
pub open spec fn last_segment(p: Seq<char>) -> Seq<char> {
    match last_index_of(p, '/') {
        Some(k) => p.skip(k + 1),
        None => p,
    }
}

/// A path that every platform splits the same way at its end: no `\`,
/// not starting with `//` (on Windows a UNC or device prefix, which has no
/// file name), not ending with `/`, and a last segment that is neither `.`
/// nor `..` and holds no `:`. Its file name is its last segment.
pub open spec fn is_simple_path(p: Seq<char>) -> bool {
    &&& p.len() > 0
    &&& !p.contains('\\')
    &&& !(p.len() >= 2 && p[0] == '/' && p[1] == '/')
    &&& p.last() != '/'
    &&& !last_segment(p).contains(':')
    &&& last_segment(p) != seq!['.']
    &&& last_segment(p) != seq!['.', '.']
}

/// The extension of a file name (`Path::extension`): the text after its
/// last `.`, unless it has no `.` or its only `.` comes first.
pub open spec fn name_extension(name: Seq<char>) -> Option<Seq<char>> {
    match last_index_of(name, '.') {
        Some(k) => if k == 0 {
            None
        } else {
            Some(name.skip(k + 1))
        },
        None => None,
    }
}

/// Whether `c` separates path components on Windows: `/` or `\`.
pub open spec fn is_any_separator(c: char) -> bool {
    c == '/' || c == '\\'
}

/// The position of the last `/` or `\` in `s`.
pub open spec fn last_separator_index(s: Seq<char>) -> Option<int>
    decreases s.len(),
{
    if s.len() == 0 {
        None
    } else if is_any_separator(s.last()) {
        Some(s.len() - 1)
    } else {
        last_separator_index(s.drop_last())
    }
}

/// The text after the last `/` or `\` of `p` (all of `p` if it has
/// neither).
pub open spec fn file_segment(p: Seq<char>) -> Seq<char> {
    match last_separator_index(p) {
        Some(k) => p.skip(k + 1),
        None => p,
    }
}

/// A path whose file name every platform reads from its text after the
/// last `/` or `\` (see [`file_segment`]) as far as its extension goes: it
/// holds no `?`, does not start with two separators (on Windows a UNC,
/// device or verbatim prefix), and that last text is not empty, not `.`
/// or `..`, and holds no `:`. On Windows that text is the file name; on
/// Unix, where only `/` separates, the file name ends with it.
pub open spec fn is_plain_file_path(p: Seq<char>) -> bool {
    &&& !p.contains('?')
    &&& !(p.len() >= 2 && is_any_separator(p[0]) && is_any_separator(p[1]))
    &&& file_segment(p).len() > 0
    &&& !file_segment(p).contains(':')
    &&& file_segment(p) != seq!['.']
    &&& file_segment(p) != seq!['.', '.']
}

/// `Path::new(path).extension()` as text. The file name, and so the
/// extension, follows the separators of the platform. The contract states
/// what the documentation gives on every platform: no extension without a
/// `.`; an extension is text after a `.` that holds no `.`, nor a `/`
/// unless the path holds a `\` or a `?`; and for a simple path (see
/// [`is_simple_path`]) the extension of its last segment. For a path whose
/// last text after a `/` or `\` is a plain file name (see
/// [`is_plain_file_path`]): where that name has a `.` after its first
/// character, the extension is the text after its last `.` on every
/// platform; where it has no `.` at all, there is no extension on Windows,
/// and on Unix (where the file name reaches back over the `\`) either none
/// or one that holds a `\`. For other paths, which `.` the extension
/// follows is left unsaid.
#[verifier::external_body]
fn path_extension(path: &str) -> (ext: Option<String>)
    ensures
        !path@.contains('.') ==> ext is None,
        ext matches Some(e) ==> is_extension_of(path@, e@),
        is_simple_path(path@) ==> match ext {
            Some(e) => name_extension(last_segment(path@)) == Some(e@),
            None => name_extension(last_segment(path@)) is None,
        },
        is_plain_file_path(path@) && name_extension(file_segment(path@)) is Some ==> match ext {
            Some(e) => name_extension(file_segment(path@)) == Some(e@),
            None => false,
        },
        is_plain_file_path(path@) && !file_segment(path@).contains('.') ==> match ext {
            Some(e) => e@.contains('\\'),
            None => true,
        },
{
    std::path::Path::new(path).extension().and_then(|e| e.to_str()).map(|e| e.to_string())
}

/// `joined` is `base`, one separator (`/` or `\`) and `child`.
pub open spec fn joined_with_separator(base: Seq<char>, child: Seq<char>, joined: Seq<char>) -> bool {
    joined == base + seq!['/'] + child || joined == base + seq!['\\'] + child
}

/// A base that `PathBuf::push` extends with a separator before a relative
/// child on every platform: not empty, not ending with `/` or `\`, and not
/// a bare drive such as `C:` (to which Windows adds no separator).
pub open spec fn needs_separator(base: Seq<char>) -> bool {
    &&& base.len() > 0
    &&& base.last() != '/'
    &&& base.last() != '\\'
    &&& !(base.len() == 2 && base[1] == ':')
}

/// What `Path::new(base).join(child)` gives for a child that is appended
/// as it stands (see [`is_join_child`]) on every platform, for a base without `?`: `base` and `child` with at
/// most one separator between them; exactly one when the base needs one;
/// none when the base is empty or ends with `/`.
pub open spec fn is_join_of(base: Seq<char>, child: Seq<char>, joined: Seq<char>) -> bool {
    !base.contains('?') ==> {
        &&& joined_at_separator(base, child, joined)
        &&& needs_separator(base) ==> joined_with_separator(base, child, joined)
        &&& base.len() == 0 || base.last() == '/' ==> joined == base + child
    }
}

/// `Path::new(base).join(child)` as text, for which `PathBuf::push` adds a
/// separator unless the base is empty or already ends with one. Which
/// separator (`/` on Unix, `\` on Windows) is the platform's, so the
/// contract states the result only up to that separator, and only for a
/// child without a separator or a drive prefix (see [`is_join_child`]):
/// another child may be a root or a prefix that replaces the base. A Windows
/// verbatim base (`\\?\...`) is rebuilt from its components by `join`, so
/// the contract also leaves out bases that hold a `?`; a base ending with
/// `\` (a separator on Windows only) gets only the three-way statement.
#[verifier::external_body]
pub(crate) fn path_join(base: &str, child: &str) -> (joined: String)
    ensures
        is_join_child(child@) ==> is_join_of(base@, child@, joined@),
{
    std::path::Path::new(base).join(child).to_string_lossy().into_owned()
}

/// A relative path of plain segments joined by single `/` (see
/// [`is_plain_segment`]).
pub open spec fn is_plain_relative_path(p: Seq<char>) -> bool {
    forall|i: int|
        0 <= i < split_on(p, '/').len() ==> is_plain_segment(#[trigger] split_on(p, '/')[i])
}

/// `Path::new(path).components().count()`. How a path splits into
/// components depends on the platform; the contract states the count for
/// the empty path, for a relative path of plain segments, which every
/// platform splits at each `/`, and for a path without `/` or `\` and
/// without a `:` in second place: no platform finds a separator or a
/// prefix in it, so it is one component (`.` and `..` included).
#[verifier::external_body]
pub(crate) fn path_component_count(path: &str) -> (n: usize)
    ensures
        path@.len() == 0 ==> n == 0,
        is_plain_segment(path@) ==> n == 1,
        is_plain_relative_path(path@) ==> n == split_on(path@, '/').len(),
        is_join_child(path@) ==> n == 1,
{
    std::path::Path::new(path).components().count()
}

// ---------------------------------------------------------------------
// Folder names
// ---------------------------------------------------------------------

/// Characters that Windows does not accept in a file or folder name.
pub open spec fn is_reserved_char(c: char) -> bool {
    c == '<' || c == '>' || c == ':' || c == '"' || c == '/' || c == '\\' || c == '|' || c == '?'
        || c == '*'
}

/// `c` with a reserved character replaced by `_`.
pub open spec fn sanitize_char(c: char) -> char {
    if is_reserved_char(c) {
        '_'
    } else {
        c
    }
}

/// The folder name that a torrent named `name` is saved under: reserved
/// characters become `_`, surrounding white space and trailing dots go,
/// and an empty result becomes `download`.
pub open spec fn safe_folder_text(name: Seq<char>) -> Seq<char> {
    let t = trim_end_char(trimmed(name.map_values(|c: char| sanitize_char(c))), '.');
    if t.len() == 0 {
        "download"@
    } else {
        t
    }
}

/// Whether every character of `s` satisfies `p`.
pub open spec fn all_chars(s: Seq<char>, p: spec_fn(char) -> bool) -> bool {
    forall|i: int| 0 <= i < s.len() ==> p(#[trigger] s[i])
}

proof fn lemma_trim_start_keeps(s: Seq<char>, p: spec_fn(char) -> bool)
    requires
        all_chars(s, p),
    ensures
        all_chars(trim_start(s), p),
    decreases s.len(),
{
    if s.len() > 0 && is_white_space(s[0]) {
        let t = s.drop_first();
        assert forall|i: int| 0 <= i < t.len() implies p(#[trigger] t[i]) by {
            assert(t[i] == s[i + 1]);
        }
        lemma_trim_start_keeps(t, p);
    }
}

proof fn lemma_trim_end_keeps(s: Seq<char>, p: spec_fn(char) -> bool)
    requires
        all_chars(s, p),
    ensures
        all_chars(trim_end(s), p),
    decreases s.len(),
{
    if s.len() > 0 && is_white_space(s.last()) {
        let t = s.drop_last();
        assert forall|i: int| 0 <= i < t.len() implies p(#[trigger] t[i]) by {
            assert(t[i] == s[i]);
        }
        lemma_trim_end_keeps(t, p);
    }
}

proof fn lemma_trim_end_char_keeps(s: Seq<char>, c: char, p: spec_fn(char) -> bool)
    requires
        all_chars(s, p),
    ensures
        all_chars(trim_end_char(s, c), p),
        trim_end_char(s, c).len() > 0 ==> trim_end_char(s, c).last() != c,
    decreases s.len(),
{
    if s.len() > 0 && s.last() == c {
        let t = s.drop_last();
        assert forall|i: int| 0 <= i < t.len() implies p(#[trigger] t[i]) by {
            assert(t[i] == s[i]);
        }
        lemma_trim_end_char_keeps(t, c, p);
    }
}

/// The folder name is never empty, holds no reserved character and does
/// not end with a dot.
pub proof fn lemma_safe_folder_text_is_safe(name: Seq<char>)
    ensures
        safe_folder_text(name).len() > 0,
        forall|i: int|
            0 <= i < safe_folder_text(name).len() ==> !is_reserved_char(
                #[trigger] safe_folder_text(name)[i],
            ),
        safe_folder_text(name).last() != '.',
{
    let ok = |c: char| !is_reserved_char(c);
    let m = name.map_values(|c: char| sanitize_char(c));
    assert(all_chars(m, ok));
    lemma_trim_start_keeps(m, ok);
    lemma_trim_end_keeps(trim_start(m), ok);
    lemma_trim_end_char_keeps(trimmed(m), '.', ok);
    let t = trim_end_char(trimmed(m), '.');
    if t.len() == 0 {
        reveal_strlit("download");
    } else {
        assert forall|i: int| 0 <= i < t.len() implies !is_reserved_char(#[trigger] t[i]) by {
            assert(ok(t[i]));
        }
    }
}

proof fn lemma_trim_start_is_suffix(s: Seq<char>) -> (k: int)
    ensures
        0 <= k <= s.len(),
        trim_start(s) == s.subrange(k, s.len() as int),
    decreases s.len(),
{
    if s.len() > 0 && is_white_space(s[0]) {
        let j = lemma_trim_start_is_suffix(s.drop_first());
        assert(s.drop_first().subrange(j, s.len() - 1) =~= s.subrange(j + 1, s.len() as int));
        j + 1
    } else {
        assert(s.subrange(0, s.len() as int) =~= s);
        0
    }
}

proof fn lemma_trim_end_is_prefix(s: Seq<char>) -> (k: int)
    ensures
        0 <= k <= s.len(),
        trim_end(s) == s.subrange(0, k),
    decreases s.len(),
{
    if s.len() > 0 && is_white_space(s.last()) {
        let j = lemma_trim_end_is_prefix(s.drop_last());
        assert(s.drop_last().subrange(0, j) =~= s.subrange(0, j));
        j
    } else {
        assert(s.subrange(0, s.len() as int) =~= s);
        s.len() as int
    }
}

proof fn lemma_trim_end_char_is_prefix(s: Seq<char>, c: char) -> (k: int)
    ensures
        0 <= k <= s.len(),
        trim_end_char(s, c) == s.subrange(0, k),
    decreases s.len(),
{
    if s.len() > 0 && s.last() == c {
        let j = lemma_trim_end_char_is_prefix(s.drop_last(), c);
        assert(s.drop_last().subrange(0, j) =~= s.subrange(0, j));
        j
    } else {
        assert(s.subrange(0, s.len() as int) =~= s);
        s.len() as int
    }
}

/// The folder name of a torrent is a run of consecutive characters of its
/// name (or `download` where nothing is left), in which each of
/// `< > : " / \ | ? *` has become `_` and every other character is kept
/// unchanged.
pub proof fn law_safe_folder_keeps_other_chars(name: Seq<char>)
    ensures
        safe_folder_text(name) == "download"@ || exists|a: int|
            #![trigger name.subrange(a, a + safe_folder_text(name).len())]
            0 <= a && a + safe_folder_text(name).len() <= name.len() && forall|i: int|
                0 <= i < safe_folder_text(name).len() ==> {
                    let c = name[a + i];
                    let f = #[trigger] safe_folder_text(name)[i];
                    &&& (c == '<' || c == '>' || c == ':' || c == '"' || c == '/' || c == '\\'
                        || c == '|' || c == '?' || c == '*') ==> f == '_'
                    &&& !(c == '<' || c == '>' || c == ':' || c == '"' || c == '/' || c == '\\'
                        || c == '|' || c == '?' || c == '*') ==> f == c
                },
{
    let m = name.map_values(|c: char| sanitize_char(c));
    let a = lemma_trim_start_is_suffix(m);
    let ts = trim_start(m);
    let b = lemma_trim_end_is_prefix(ts);
    let t = trimmed(m);
    assert(t =~= m.subrange(a, a + b));
    let k = lemma_trim_end_char_is_prefix(t, '.');
    let f = trim_end_char(t, '.');
    assert(f =~= m.subrange(a, a + k));
    if f.len() > 0 {
        assert(safe_folder_text(name) == f);
        assert(name.subrange(a, a + f.len()).len() == f.len());
        assert forall|i: int| 0 <= i < f.len() implies {
            let c = name[a + i];
            let g = #[trigger] safe_folder_text(name)[i];
            &&& (c == '<' || c == '>' || c == ':' || c == '"' || c == '/' || c == '\\' || c == '|'
                || c == '?' || c == '*') ==> g == '_'
            &&& !(c == '<' || c == '>' || c == ':' || c == '"' || c == '/' || c == '\\' || c
                == '|' || c == '?' || c == '*') ==> g == c
        } by {
            assert(f[i] == m[a + i]);
        }
    }
}

/// A name free of `< > : " / \ | ? *`, not starting or ending with white
/// space and not ending with `.`, is its own folder name.
pub proof fn law_clean_name_is_its_own_folder(name: Seq<char>)
    requires
        name.len() > 0,
        forall|i: int|
            0 <= i < name.len() ==> {
                let c = #[trigger] name[i];
                !(c == '<' || c == '>' || c == ':' || c == '"' || c == '/' || c == '\\' || c == '|'
                    || c == '?' || c == '*')
            },
        !is_white_space(name[0]),
        !is_white_space(name.last()),
        name.last() != '.',
    ensures
        safe_folder_text(name) == name,
{
    let m = name.map_values(|c: char| sanitize_char(c));
    assert forall|i: int| 0 <= i < name.len() implies m[i] == name[i] by {
        let c = name[i];
        assert(!(c == '<' || c == '>' || c == ':' || c == '"' || c == '/' || c == '\\' || c
            == '|' || c == '?' || c == '*'));
    }
    assert(m =~= name);
    assert(trim_start(name) == name);
    assert(trim_end(name) == name);
    assert(trim_end_char(name, '.') == name);
}

/// The folder name that a torrent named `name` is saved under.
pub fn safe_folder_name(name: &str) -> (folder: String)
    ensures
        folder@ == safe_folder_text(name@),
        folder@.len() > 0,
        forall|i: int| 0 <= i < folder@.len() ==> !is_reserved_char(#[trigger] folder@[i]),
        folder@.last() != '.',
{
    let v = chars_of(name);
    let mut sanitized = String::new();
    let mut i: usize = 0;
    while i < v.len()
        invariant
            i <= v@.len(),
            v@ == name@,
            sanitized@ == name@.take(i as int).map_values(|c: char| sanitize_char(c)),
        decreases v@.len() - i,
    {
        let c = v[i];
        let s = if c == '<' || c == '>' || c == ':' || c == '"' || c == '/' || c == '\\' || c
            == '|' || c == '?' || c == '*' {
            '_'
        } else {
            c
        };
        push_char(&mut sanitized, s);
        assert(name@.take(i + 1).map_values(|c: char| sanitize_char(c)) =~= name@.take(
            i as int,
        ).map_values(|c: char| sanitize_char(c)).push(s));
        i = i + 1;
    }
    assert(name@.take(v@.len() as int) =~= name@);
    let t = trim_then_strip_end(sanitized.as_str(), '.');
    proof {
        lemma_safe_folder_text_is_safe(name@);
    }
    let tv = chars_of(t.as_str());
    if tv.len() == 0 {
        owned("download")
    } else {
        t
    }
}

// ---------------------------------------------------------------------
// Local torrent files
// ---------------------------------------------------------------------

/// Inputs that name a remote download rather than a file.
pub open spec fn is_remote_uri(u: Seq<char>) -> bool {
    starts_with(u, "http://"@) || starts_with(u, "https://"@) || starts_with(u, "magnet:"@)
}

/// Whether `c` is an ASCII character (encoded as one byte).
pub open spec fn is_ascii_char(c: char) -> bool {
    (c as u32) < 0x80
}

/// The path that a non-remote input names: a `file://` prefix is dropped,
/// and so is a `/` before a drive letter such as in `/C:/...`.
pub open spec fn candidate_path(u: Seq<char>) -> Seq<char> {
    let p = if starts_with(u, "file://"@) {
        u.skip("file://"@.len() as int)
    } else {
        u
    };
    if p.len() >= 3 && p[0] == '/' && is_ascii_char(p[1]) && p[2] == ':' {
        p.drop_first()
    } else {
        p
    }
}

/// Whether a reported extension is `torrent` in any ASCII case.
pub open spec fn is_torrent_ext(ext: Option<Seq<char>>) -> bool {
    ext matches Some(e) && eq_ignore_ascii_case(e, "torrent"@)
}

/// Whether `p` shows a `torrent` extension after some `.`, as far as the
/// text can tell without the platform's path rules.
pub open spec fn shows_torrent_extension(p: Seq<char>) -> bool {
    exists|e: Seq<char>| is_extension_of(p, e) && eq_ignore_ascii_case(e, "torrent"@)
}

/// Whether `ext`, an extension reported for a path, is `torrent` in any
/// ASCII case.
pub fn is_torrent_extension(ext: &Option<String>) -> (r: bool)
    ensures
        r == is_torrent_ext(
            match ext {
                Some(e) => Some(e@),
                None => None,
            },
        ),
{
    match ext {
        Some(e) => str_eq_ignore_ascii_case(e.as_str(), "torrent"),
        None => false,
    }
}

/// Keeps `candidate` as a torrent path exactly when the extension reported
/// for it is `torrent`.
pub fn pick_torrent_path(candidate: String, ext: Option<String>) -> (r: Option<String>)
    ensures
        r == (if ext matches Some(e) && eq_ignore_ascii_case(e@, "torrent"@) {
            Some(candidate)
        } else {
            None
        }),
{
    if is_torrent_extension(&ext) {
        Some(candidate)
    } else {
        None
    }
}

/// Text that holds a `\` is no `torrent` in any ASCII case.
proof fn lemma_backslash_is_not_torrent(e: Seq<char>)
    requires
        e.contains('\\'),
    ensures
        !eq_ignore_ascii_case(e, "torrent"@),
{
    reveal_strlit("torrent");
    let i = choose|i: int| 0 <= i < e.len() && e[i] == '\\';
    if eq_ignore_ascii_case(e, "torrent"@) {
        assert(ascii_lower_code(e[i]) == ascii_lower_code("torrent"@[i]));
    }
}

/// Whether `path` names a `.torrent` file (by its extension, in any ASCII
/// case).
pub fn is_torrent_path(path: &str) -> (r: bool)
    ensures
        r ==> shows_torrent_extension(path@),
        !path@.contains('.') ==> !r,
        is_simple_path(path@) ==> r == is_torrent_ext(name_extension(last_segment(path@))),
        is_plain_file_path(path@) && name_extension(file_segment(path@)) is Some ==> r
            == is_torrent_ext(name_extension(file_segment(path@))),
        is_plain_file_path(path@) && !file_segment(path@).contains('.') ==> !r,
{
    let ext = path_extension(path);
    let r = is_torrent_extension(&ext);
    proof {
        if r {
            let e = ext->0@;
            assert(is_extension_of(path@, e));
            if is_plain_file_path(path@) && !file_segment(path@).contains('.') {
                lemma_backslash_is_not_torrent(e);
            }
        }
    }
    r
}

/// The text of the path that `uri` names, before the extension test.
fn candidate_path_of(uri: &str) -> (p: String)
    ensures
        p@ == candidate_path(uri@),
{
    let v = chars_of(uri);
    let file = chars_of("file://");
    let p = if chars_start_with(&v, &file) {
        string_from(&v, file.len(), v.len())
    } else {
        string_of(&v)
    };
    proof {
        if starts_with(uri@, "file://"@) {
            assert(v@.subrange(file@.len() as int, v@.len() as int) =~= uri@.skip(
                "file://"@.len() as int,
            ));
        }
    }
    let w = chars_of(p.as_str());
    if w.len() >= 3 && w[0] == '/' && (w[1] as u32) < 0x80 && w[2] == ':' {
        let q = string_from(&w, 1, w.len());
        assert(w@.subrange(1, w@.len() as int) =~= w@.drop_first());
        q
    } else {
        p
    }
}

/// The local `.torrent` file that `uri` names, if it names one: remote
/// inputs (`http://`, `https://`, `magnet:`) never do; otherwise the path
/// is `uri` without a `file://` prefix (and without the `/` in front of a
/// drive letter), kept when its extension is `torrent` in any ASCII case.
pub fn local_torrent_path(uri: &str) -> (r: Option<String>)
    ensures
        is_remote_uri(uri@) ==> r is None,
        r matches Some(p) ==> p@ == candidate_path(uri@) && shows_torrent_extension(p@),
        !candidate_path(uri@).contains('.') ==> r is None,
        !is_remote_uri(uri@) && is_simple_path(candidate_path(uri@)) ==> (r is Some
            <==> is_torrent_ext(name_extension(last_segment(candidate_path(uri@))))),
        !is_remote_uri(uri@) && is_plain_file_path(candidate_path(uri@)) && name_extension(
            file_segment(candidate_path(uri@)),
        ) is Some ==> (r is Some <==> is_torrent_ext(
            name_extension(file_segment(candidate_path(uri@))),
        )),
        is_plain_file_path(candidate_path(uri@)) && !file_segment(candidate_path(uri@)).contains(
            '.',
        ) ==> r is None,
{
    let v = chars_of(uri);
    if chars_start_with(&v, &chars_of("http://")) || chars_start_with(&v, &chars_of("https://"))
        || chars_start_with(&v, &chars_of("magnet:")) {
        return None;
    }
    let candidate = candidate_path_of(uri);
    let ext = path_extension(candidate.as_str());
    proof {
        if ext is Some {
            assert(is_extension_of(candidate@, ext->0@));
            if is_plain_file_path(candidate@) && !file_segment(candidate@).contains('.') {
                lemma_backslash_is_not_torrent(ext->0@);
            }
        }
    }
    pick_torrent_path(candidate, ext)
}

} // verus!
