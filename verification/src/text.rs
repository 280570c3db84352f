//! Character-level string helpers with their specifications: Unicode
//! white-space trimming, ASCII case folding, splitting on a separator,
//! decimal parsing and decimal printing.

use vstd::prelude::*;

verus! {

/// Appends one character to a string; a thin trusted wrapper over `String::push`.
#[verifier::external_body]
pub(crate) fn push_char(s: &mut String, c: char)
    ensures
        final(s)@ == old(s)@.push(c),
{
    s.push(c);
}

/// The views of a sequence of strings.
pub open spec fn views(v: Seq<String>) -> Seq<Seq<char>> {
    v.map_values(|x: String| x@)
}

/// The characters of `s`, in order.
pub fn chars_of(s: &str) -> (v: Vec<char>)
    ensures
        v@ == s@,
{
    broadcast use vstd::string::group_string_axioms;

    let mut v: Vec<char> = Vec::new();
    for c in it: s.chars()
        invariant
            v@ == it.seq().take(it.index() as int),
    {
        v.push(c);
    }
    v
}

/// A string holding `v[lo..hi]`.
pub fn string_from(v: &Vec<char>, lo: usize, hi: usize) -> (s: String)
    requires
        lo <= hi <= v@.len(),
    ensures
        s@ == v@.subrange(lo as int, hi as int),
{
    let mut s = String::new();
    let mut i = lo;
    while i < hi
        invariant
            lo <= i <= hi <= v@.len(),
            s@ == v@.subrange(lo as int, i as int),
        decreases hi - i,
    {
        push_char(&mut s, v[i]);
        assert(v@.subrange(lo as int, i + 1) =~= v@.subrange(lo as int, i as int).push(v@[i as int]));
        i = i + 1;
    }
    s
}

/// A string holding all of `v`.
pub fn string_of(v: &Vec<char>) -> (s: String)
    ensures
        s@ == v@,
{
    let s = string_from(v, 0, v.len());
    assert(v@.subrange(0, v@.len() as int) =~= v@);
    s
}

/// A copy of a string slice.
pub fn owned(s: &str) -> (r: String)
    ensures
        r@ == s@,
{
    let v = chars_of(s);
    string_of(&v)
}

/// `a + b` as a new string.
pub fn concat(a: &str, b: &str) -> (r: String)
    ensures
        r@ == a@ + b@,
{
    let mut r = owned(a);
    let v = chars_of(b);
    let mut i: usize = 0;
    while i < v.len()
        invariant
            i <= v@.len(),
            v@ == b@,
            r@ == a@ + v@.take(i as int),
        decreases v@.len() - i,
    {
        push_char(&mut r, v[i]);
        assert(v@.take(i + 1) =~= v@.take(i as int).push(v@[i as int]));
        i = i + 1;
    }
    assert(v@.take(v@.len() as int) =~= v@);
    r
}

/// Appends `t` to `s`.
pub fn push_str(s: &mut String, t: &str)
    ensures
        final(s)@ == old(s)@ + t@,
{
    let v = chars_of(t);
    let mut i: usize = 0;
    let ghost start = s@;
    while i < v.len()
        invariant
            i <= v@.len(),
            v@ == t@,
            s@ == start + v@.take(i as int),
        decreases v@.len() - i,
    {
        push_char(s, v[i]);
        assert(start + v@.take(i + 1) =~= (start + v@.take(i as int)).push(v@[i as int]));
        i = i + 1;
    }
    assert(v@.take(v@.len() as int) =~= v@);
}

/// Whether two character sequences are equal.
pub fn same_chars(a: &Vec<char>, b: &Vec<char>) -> (r: bool)
    ensures
        r == (a@ == b@),
{
    if a.len() != b.len() {
        return false;
    }
    let mut i: usize = 0;
    while i < a.len()
        invariant
            a@.len() == b@.len(),
            i <= a@.len(),
            forall|j: int| 0 <= j < i ==> a@[j] == b@[j],
        decreases a@.len() - i,
    {
        if a[i] != b[i] {
            return false;
        }
        i = i + 1;
    }
    assert(a@ =~= b@);
    true
}

/// Whether two strings hold the same characters.
pub fn str_equal(a: &str, b: &str) -> (r: bool)
    ensures
        r == (a@ == b@),
{
    let x = chars_of(a);
    let y = chars_of(b);
    same_chars(&x, &y)
}

// ---------------------------------------------------------------------
// White space and trimming
// ---------------------------------------------------------------------

/// The Unicode `White_Space` property, which `char::is_whitespace` and
/// `str::trim` use.
pub open spec fn is_white_space(c: char) -> bool {
    let u = c as u32;
    (0x9 <= u && u <= 0xd) || u == 0x20 || u == 0x85 || u == 0xa0 || u == 0x1680 || (0x2000 <= u
        && u <= 0x200a) || u == 0x2028 || u == 0x2029 || u == 0x202f || u == 0x205f || u == 0x3000
}

/// Executable form of [`is_white_space`].
pub fn is_white_space_char(c: char) -> (b: bool)
    ensures
        b == is_white_space(c),
{
    let u = c as u32;
    (0x9 <= u && u <= 0xd) || u == 0x20 || u == 0x85 || u == 0xa0 || u == 0x1680 || (0x2000 <= u
        && u <= 0x200a) || u == 0x2028 || u == 0x2029 || u == 0x202f || u == 0x205f || u == 0x3000
}

/// `s` without its leading white space.
pub open spec fn trim_start(s: Seq<char>) -> Seq<char>
    decreases s.len(),
{
    if s.len() > 0 && is_white_space(s[0]) {
        trim_start(s.drop_first())
    } else {
        s
    }
}

/// `s` without its trailing white space.
pub open spec fn trim_end(s: Seq<char>) -> Seq<char>
    decreases s.len(),
{
    if s.len() > 0 && is_white_space(s.last()) {
        trim_end(s.drop_last())
    } else {
        s
    }
}

/// `s` without leading and trailing white space (`str::trim`).
pub open spec fn trimmed(s: Seq<char>) -> Seq<char> {
    trim_end(trim_start(s))
}

/// `s` without any trailing `c` (`str::trim_end_matches` with a character).
pub open spec fn trim_end_char(s: Seq<char>, c: char) -> Seq<char>
    decreases s.len(),
{
    if s.len() > 0 && s.last() == c {
        trim_end_char(s.drop_last(), c)
    } else {
        s
    }
}

/// Whether `s` holds white space only (or nothing).
pub open spec fn is_blank(s: Seq<char>) -> bool {
    forall|i: int| 0 <= i < s.len() ==> is_white_space(#[trigger] s[i])
}

proof fn lemma_trim_start_skip(s: Seq<char>, k: int)
    requires
        0 <= k <= s.len(),
        forall|i: int| 0 <= i < k ==> is_white_space(#[trigger] s[i]),
        k == s.len() || !is_white_space(s[k]),
    ensures
        trim_start(s) == s.skip(k),
    decreases k,
{
    if k == 0 {
        assert(s.skip(0) =~= s);
    } else {
        assert(is_white_space(s[0]));
        let t = s.drop_first();
        assert forall|i: int| 0 <= i < k - 1 implies is_white_space(#[trigger] t[i]) by {
            assert(t[i] == s[i + 1]);
        }
        lemma_trim_start_skip(t, k - 1);
        assert(t.skip(k - 1) =~= s.skip(k));
    }
}

proof fn lemma_trim_end_take(s: Seq<char>, k: int)
    requires
        0 <= k <= s.len(),
        forall|i: int| k <= i < s.len() ==> is_white_space(#[trigger] s[i]),
        k == 0 || !is_white_space(s[k - 1]),
    ensures
        trim_end(s) == s.take(k),
    decreases s.len() - k,
{
    if k == s.len() {
        assert(s.take(k) =~= s);
    } else {
        assert(is_white_space(s[s.len() - 1]));
        let t = s.drop_last();
        assert forall|i: int| k <= i < t.len() implies is_white_space(#[trigger] t[i]) by {
            assert(t[i] == s[i]);
        }
        lemma_trim_end_take(t, k);
        assert(t.take(k) =~= s.take(k));
    }
}

proof fn lemma_trim_end_char_take(s: Seq<char>, c: char, k: int)
    requires
        0 <= k <= s.len(),
        forall|i: int| k <= i < s.len() ==> #[trigger] s[i] == c,
        k == 0 || s[k - 1] != c,
    ensures
        trim_end_char(s, c) == s.take(k),
    decreases s.len() - k,
{
    if k == s.len() {
        assert(s.take(k) =~= s);
    } else {
        assert(s[s.len() - 1] == c);
        let t = s.drop_last();
        assert forall|i: int| k <= i < t.len() implies #[trigger] t[i] == c by {
            assert(t[i] == s[i]);
        }
        lemma_trim_end_char_take(t, c, k);
        assert(t.take(k) =~= s.take(k));
    }
}

/// Trimmed text is blank exactly when the text is.
pub proof fn lemma_trimmed_empty_iff_blank(s: Seq<char>)
    ensures
        (trimmed(s).len() == 0) == is_blank(s),
    decreases s.len(),
{
    if s.len() > 0 && is_white_space(s[0]) {
        lemma_trimmed_empty_iff_blank(s.drop_first());
        if is_blank(s.drop_first()) {
            assert forall|i: int| 0 <= i < s.len() implies is_white_space(#[trigger] s[i]) by {
                if i > 0 {
                    assert(s[i] == s.drop_first()[i - 1]);
                }
            }
        }
        if is_blank(s) {
            assert forall|i: int| 0 <= i < s.drop_first().len() implies is_white_space(
                #[trigger] s.drop_first()[i],
            ) by {
                assert(s.drop_first()[i] == s[i + 1]);
            }
        }
    } else if s.len() > 0 {
        // the first character stays, so the trimmed text is not empty
        lemma_trim_end_keeps_first(s);
        assert(!is_white_space(s[0]));
    }
}

proof fn lemma_trim_end_keeps_first(s: Seq<char>)
    requires
        s.len() > 0,
        !is_white_space(s[0]),
    ensures
        trim_end(s).len() > 0,
        trim_end(s)[0] == s[0],
    decreases s.len(),
{
    if is_white_space(s.last()) {
        assert(s.len() > 1);
        lemma_trim_end_keeps_first(s.drop_last());
    }
}

/// Index of the first character of `v` that is not white space
/// (or `v.len()`).
fn first_non_white(v: &Vec<char>) -> (k: usize)
    ensures
        k <= v@.len(),
        forall|i: int| 0 <= i < k ==> is_white_space(#[trigger] v@[i]),
        k == v@.len() || !is_white_space(v@[k as int]),
{
    let mut k: usize = 0;
    while k < v.len() && is_white_space_char(v[k])
        invariant
            k <= v@.len(),
            forall|i: int| 0 <= i < k ==> is_white_space(#[trigger] v@[i]),
        decreases v@.len() - k,
    {
        k = k + 1;
    }
    k
}

/// `s.trim()`.
pub fn trim(s: &str) -> (r: String)
    ensures
        r@ == trimmed(s@),
{
    let v = chars_of(s);
    let a = first_non_white(&v);
    let mut b = v.len();
    while b > a && is_white_space_char(v[b - 1])
        invariant
            a <= b <= v@.len(),
            forall|i: int| b <= i < v@.len() ==> is_white_space(#[trigger] v@[i]),
        decreases b,
    {
        b = b - 1;
    }
    proof {
        lemma_trim_start_skip(v@, a as int);
        let t = v@.skip(a as int);
        assert forall|i: int| (b - a) <= i < t.len() implies is_white_space(#[trigger] t[i]) by {
            assert(t[i] == v@[i + a]);
        }
        if b > a {
            assert(t[b - a - 1] == v@[b - 1]);
        }
        lemma_trim_end_take(t, (b - a) as int);
        assert(t.take((b - a) as int) =~= v@.subrange(a as int, b as int));
    }
    string_from(&v, a, b)
}

/// `s.trim().trim_end_matches(c)`.
pub fn trim_then_strip_end(s: &str, c: char) -> (r: String)
    ensures
        r@ == trim_end_char(trimmed(s@), c),
{
    let t = trim(s);
    let v = chars_of(t.as_str());
    let mut b = v.len();
    while b > 0 && v[b - 1] == c
        invariant
            b <= v@.len(),
            forall|i: int| b <= i < v@.len() ==> #[trigger] v@[i] == c,
        decreases b,
    {
        b = b - 1;
    }
    proof {
        lemma_trim_end_char_take(v@, c, b as int);
        assert(v@.take(b as int) =~= v@.subrange(0, b as int));
    }
    string_from(&v, 0, b)
}

/// Whether `s` is blank after trimming (`s.trim().is_empty()`).
pub fn is_blank_text(s: &str) -> (r: bool)
    ensures
        r == (trimmed(s@).len() == 0),
        r == is_blank(s@),
{
    let v = chars_of(s);
    let k = first_non_white(&v);
    proof {
        lemma_trimmed_empty_iff_blank(s@);
    }
    k == v.len()
}

// ---------------------------------------------------------------------
// ASCII case folding and prefixes
// ---------------------------------------------------------------------

/// The code of `c` after `to_ascii_lowercase`.
pub open spec fn ascii_lower_code(c: char) -> u32 {
    if 'A' <= c && c <= 'Z' {
        (c as u32 + 32) as u32
    } else {
        c as u32
    }
}

/// `a.eq_ignore_ascii_case(b)`: equal after ASCII lower-casing.
pub open spec fn eq_ignore_ascii_case(a: Seq<char>, b: Seq<char>) -> bool {
    &&& a.len() == b.len()
    &&& forall|i: int| 0 <= i < a.len() ==> ascii_lower_code(#[trigger] a[i]) == ascii_lower_code(
        b[i],
    )
}

fn lower_code(c: char) -> (u: u32)
    ensures
        u == ascii_lower_code(c),
{
    if 'A' <= c && c <= 'Z' {
        c as u32 + 32
    } else {
        c as u32
    }
}

/// Executable [`eq_ignore_ascii_case`] over character vectors.
pub fn chars_eq_ignore_ascii_case(a: &Vec<char>, b: &Vec<char>) -> (r: bool)
    ensures
        r == eq_ignore_ascii_case(a@, b@),
{
    if a.len() != b.len() {
        return false;
    }
    let mut i: usize = 0;
    while i < a.len()
        invariant
            a@.len() == b@.len(),
            i <= a@.len(),
            forall|j: int| 0 <= j < i ==> ascii_lower_code(#[trigger] a@[j]) == ascii_lower_code(
                b@[j],
            ),
        decreases a@.len() - i,
    {
        if lower_code(a[i]) != lower_code(b[i]) {
            return false;
        }
        i = i + 1;
    }
    true
}

/// `a.eq_ignore_ascii_case(b)` on string slices.
pub fn str_eq_ignore_ascii_case(a: &str, b: &str) -> (r: bool)
    ensures
        r == eq_ignore_ascii_case(a@, b@),
{
    let x = chars_of(a);
    let y = chars_of(b);
    chars_eq_ignore_ascii_case(&x, &y)
}

/// Whether `p` is a prefix of `s` (`s.starts_with(p)`).
pub open spec fn starts_with(s: Seq<char>, p: Seq<char>) -> bool {
    p.len() <= s.len() && s.subrange(0, p.len() as int) == p
}

/// Executable [`starts_with`] over character vectors.
pub fn chars_start_with(s: &Vec<char>, p: &Vec<char>) -> (r: bool)
    ensures
        r == starts_with(s@, p@),
{
    if p.len() > s.len() {
        return false;
    }
    let mut i: usize = 0;
    while i < p.len()
        invariant
            p@.len() <= s@.len(),
            i <= p@.len(),
            forall|j: int| 0 <= j < i ==> s@[j] == p@[j],
        decreases p@.len() - i,
    {
        if s[i] != p[i] {
            assert(s@.subrange(0, p@.len() as int)[i as int] != p@[i as int]);
            return false;
        }
        i = i + 1;
    }
    assert(s@.subrange(0, p@.len() as int) =~= p@);
    true
}

/// `s.starts_with(p)` on string slices.
pub fn str_starts_with(s: &str, p: &str) -> (r: bool)
    ensures
        r == starts_with(s@, p@),
{
    let x = chars_of(s);
    let y = chars_of(p);
    chars_start_with(&x, &y)
}

// ---------------------------------------------------------------------
// Splitting
// ---------------------------------------------------------------------

/// The pieces of `s` between occurrences of `sep` (`str::split` with a
/// character): always at least one piece, empty pieces kept.
pub open spec fn split_on(s: Seq<char>, sep: char) -> Seq<Seq<char>>
    decreases s.len(),
{
    if s.len() == 0 {
        seq![Seq::<char>::empty()]
    } else {
        let rest = split_on(s.drop_first(), sep);
        if s[0] == sep {
            seq![Seq::<char>::empty()] + rest
        } else {
            rest.update(0, seq![s[0]] + rest[0])
        }
    }
}

/// `r` with `p` put in front of its first piece.
pub open spec fn prepend_first(r: Seq<Seq<char>>, p: Seq<char>) -> Seq<Seq<char>> {
    r.update(0, p + r[0])
}

/// There is always at least one piece.
pub proof fn lemma_split_nonempty(s: Seq<char>, sep: char)
    ensures
        split_on(s, sep).len() >= 1,
    decreases s.len(),
{
    if s.len() > 0 {
        lemma_split_nonempty(s.drop_first(), sep);
    }
}

/// `s.split(sep)`, each piece as a new string.
pub fn split_text(s: &str, sep: char) -> (pieces: Vec<String>)
    ensures
        views(pieces@) == split_on(s@, sep),
{
    let v = chars_of(s);
    let mut done: Vec<String> = Vec::new();
    let mut cur = String::new();
    let mut i: usize = 0;
    proof {
        lemma_split_nonempty(v@, sep);
        assert(v@.skip(0) =~= v@);
        assert(prepend_first(split_on(v@, sep), cur@) =~= split_on(v@, sep));
        assert(views(done@) =~= Seq::<Seq<char>>::empty());
        assert(split_on(v@, sep) =~= views(done@) + prepend_first(split_on(v@.skip(0), sep), cur@));
    }
    while i < v.len()
        invariant
            i <= v@.len(),
            v@ == s@,
            split_on(v@, sep) == views(done@) + prepend_first(
                split_on(v@.skip(i as int), sep),
                cur@,
            ),
        decreases v@.len() - i,
    {
        let c = v[i];
        let ghost tail = v@.skip(i as int);
        let ghost next = v@.skip(i + 1);
        proof {
            assert(tail.drop_first() =~= next);
            assert(tail[0] == c);
            lemma_split_nonempty(next, sep);
        }
        if c == sep {
            let ghost before = views(done@);
            let ghost piece = cur@;
            done.push(cur);
            cur = String::new();
            proof {
                assert(views(done@) =~= before.push(piece));
                assert(prepend_first(split_on(next, sep), cur@) =~= split_on(next, sep));
                assert(prepend_first(split_on(tail, sep), piece) =~= seq![piece] + split_on(
                    next,
                    sep,
                ));
                assert(before + (seq![piece] + split_on(next, sep)) =~= before.push(piece)
                    + split_on(next, sep));
            }
        } else {
            let ghost old_cur = cur@;
            push_char(&mut cur, c);
            proof {
                let r = split_on(next, sep);
                assert(split_on(tail, sep) == r.update(0, seq![c] + r[0]));
                assert(old_cur + (seq![c] + r[0]) =~= old_cur.push(c) + r[0]);
                assert(prepend_first(split_on(tail, sep), old_cur) =~= prepend_first(r, cur@));
            }
        }
        i = i + 1;
    }
    proof {
        assert(v@.skip(v@.len() as int) =~= Seq::<char>::empty());
        assert(prepend_first(seq![Seq::<char>::empty()], cur@) =~= seq![cur@]);
    }
    let ghost before = views(done@);
    let ghost last = cur@;
    done.push(cur);
    proof {
        assert(views(done@) =~= before.push(last));
        assert(before + seq![last] =~= before.push(last));
    }
    done
}

/// Splits at the first `sep` (`str::split_once` with a character).
pub open spec fn first_index_of(s: Seq<char>, sep: char) -> Option<int>
    decreases s.len(),
{
    if s.len() == 0 {
        None
    } else if s[0] == sep {
        Some(0)
    } else {
        match first_index_of(s.drop_first(), sep) {
            Some(k) => Some(k + 1),
            None => None,
        }
    }
}

/// Characterises [`first_index_of`] by the positions it names.
pub proof fn lemma_first_index_of(s: Seq<char>, sep: char)
    ensures
        match first_index_of(s, sep) {
            Some(k) => 0 <= k < s.len() && s[k] == sep && forall|j: int|
                0 <= j < k ==> #[trigger] s[j] != sep,
            None => forall|j: int| 0 <= j < s.len() ==> #[trigger] s[j] != sep,
        },
    decreases s.len(),
{
    if s.len() > 0 && s[0] != sep {
        lemma_first_index_of(s.drop_first(), sep);
        match first_index_of(s.drop_first(), sep) {
            Some(k) => {
                assert forall|j: int| 0 <= j < k + 1 implies #[trigger] s[j] != sep by {
                    if j > 0 {
                        assert(s[j] == s.drop_first()[j - 1]);
                    }
                }
            },
            None => {
                assert forall|j: int| 0 <= j < s.len() implies #[trigger] s[j] != sep by {
                    if j > 0 {
                        assert(s[j] == s.drop_first()[j - 1]);
                    }
                }
            },
        }
    }
}

/// `s.split_once(sep)`: the text before and after the first `sep`.
pub open spec fn split_once(s: Seq<char>, sep: char) -> Option<(Seq<char>, Seq<char>)> {
    match first_index_of(s, sep) {
        Some(k) => Some((s.take(k), s.skip(k + 1))),
        None => None,
    }
}

/// Executable [`split_once`].
pub fn split_once_text(s: &str, sep: char) -> (r: Option<(String, String)>)
    ensures
        match (r, split_once(s@, sep)) {
            (Some((a, b)), Some((x, y))) => a@ == x && b@ == y,
            (None, None) => true,
            _ => false,
        },
{
    let v = chars_of(s);
    let mut k: usize = 0;
    proof {
        lemma_first_index_of(v@, sep);
    }
    while k < v.len() && v[k] != sep
        invariant
            k <= v@.len(),
            forall|j: int| 0 <= j < k ==> #[trigger] v@[j] != sep,
        decreases v@.len() - k,
    {
        k = k + 1;
    }
    if k == v.len() {
        proof {
            if first_index_of(v@, sep) is Some {
                let m = first_index_of(v@, sep)->0;
                assert(v@[m] == sep);
            }
        }
        None
    } else {
        proof {
            match first_index_of(v@, sep) {
                Some(m) => {
                    if m < k {
                        assert(v@[m] == sep);
                    } else if m > k {
                        assert(v@[k as int] == sep);
                    }
                },
                None => {
                    assert(v@[k as int] == sep);
                },
            }
            assert(v@.take(k as int) =~= v@.subrange(0, k as int));
            assert(v@.skip(k + 1) =~= v@.subrange(k + 1, v@.len() as int));
        }
        let a = string_from(&v, 0, k);
        let b = string_from(&v, k + 1, v.len());
        Some((a, b))
    }
}

// ---------------------------------------------------------------------
// Decimal numbers
// ---------------------------------------------------------------------

/// Whether `c` is an ASCII digit.
pub open spec fn is_digit(c: char) -> bool {
    '0' <= c && c <= '9'
}

/// The value of an ASCII digit.
pub open spec fn digit_value(c: char) -> nat {
    (c as u32 - '0' as u32) as nat
}

/// The value of a run of digits, most significant first.
pub open spec fn digits_value(s: Seq<char>) -> nat
    decreases s.len(),
{
    if s.len() == 0 {
        0
    } else {
        digits_value(s.drop_last()) * 10 + digit_value(s.last())
    }
}

/// Whether every character of `s` is a digit.
pub open spec fn all_digits(s: Seq<char>) -> bool {
    forall|i: int| 0 <= i < s.len() ==> is_digit(#[trigger] s[i])
}

/// The digits of an unsigned number: one leading `+` is allowed.
pub open spec fn unsigned_digits(s: Seq<char>) -> Seq<char> {
    if s.len() > 0 && s[0] == '+' {
        s.drop_first()
    } else {
        s
    }
}

/// What `str::parse` gives for an unsigned integer type whose largest
/// value is `max`: an optional `+`, then one or more ASCII digits whose
/// value does not exceed `max`.
pub open spec fn parse_unsigned(s: Seq<char>, max: nat) -> Option<nat> {
    let d = unsigned_digits(s);
    if d.len() > 0 && all_digits(d) && digits_value(d) <= max {
        Some(digits_value(d))
    } else {
        None
    }
}

proof fn lemma_digits_value_prefix(s: Seq<char>, j: int)
    requires
        0 <= j <= s.len(),
    ensures
        digits_value(s.take(j)) <= digits_value(s),
    decreases s.len(),
{
    if j < s.len() {
        lemma_digits_value_prefix(s.drop_last(), j);
        assert(s.drop_last().take(j) =~= s.take(j));
    } else {
        assert(s.take(j) =~= s);
    }
}

/// Parses `s` as an unsigned decimal not above `max`.
pub fn parse_decimal(s: &str, max: u64) -> (r: Option<u64>)
    ensures
        match parse_unsigned(s@, max as nat) {
            Some(n) => r == Some(n as u64),
            None => r is None,
        },
{
    let v = chars_of(s);
    let mut start: usize = 0;
    if v.len() > 0 && v[0] == '+' {
        start = 1;
    }
    let ghost d = unsigned_digits(v@);
    proof {
        if start == 1 {
            assert(d =~= v@.subrange(1, v@.len() as int));
        } else {
            assert(d =~= v@.subrange(0, v@.len() as int));
        }
    }
    if start == v.len() {
        return None;
    }
    let mut acc: u64 = 0;
    let mut i: usize = start;
    while i < v.len()
        invariant
            start <= i <= v@.len(),
            v@ == s@,
            d == unsigned_digits(s@),
            d.len() > 0,
            d == v@.subrange(start as int, v@.len() as int),
            all_digits(d.take(i - start)),
            acc as nat == digits_value(d.take(i - start)),
            acc <= max,
        decreases v@.len() - i,
    {
        let c = v[i];
        let ghost k = (i - start) as int;
        proof {
            assert(d[k] == c);
        }
        if !('0' <= c && c <= '9') {
            assert(!all_digits(d)) by {
                assert(!is_digit(d[k]));
            }
            return None;
        }
        let dv = (c as u32 - '0' as u32) as u64;
        proof {
            assert(d.take(k + 1).drop_last() =~= d.take(k));
            assert(d.take(k + 1).last() == c);
            assert(digits_value(d.take(k + 1)) == digits_value(d.take(k)) * 10 + dv);
        }
        if dv > max || acc > (max - dv) / 10 {
            proof {
                if dv <= max {
                    assert(acc * 10 + dv > max) by (nonlinear_arith)
                        requires
                            acc > (max - dv) / 10,
                            dv <= max,
                    ;
                }
                lemma_digits_value_prefix(d, k + 1);
            }
            return None;
        }
        proof {
            assert(acc * 10 + dv <= max) by (nonlinear_arith)
                requires
                    acc <= (max - dv) / 10,
                    dv <= max,
            ;
            assert forall|j: int| 0 <= j < k + 1 implies is_digit(#[trigger] d.take(k + 1)[j]) by {
                if j < k {
                    assert(d.take(k + 1)[j] == d.take(k)[j]);
                }
            }
        }
        acc = acc * 10 + dv;
        i = i + 1;
    }
    proof {
        assert(d.take(d.len() as int) =~= d);
    }
    Some(acc)
}

/// The character of a digit value below ten.
pub open spec fn digit_char(d: nat) -> char {
    (('0' as u32) + d) as char
}

/// The decimal text of `n`, without leading zeros.
pub open spec fn decimal(n: nat) -> Seq<char>
    decreases n,
{
    if n < 10 {
        seq![digit_char(n)]
    } else {
        decimal(n / 10) + seq![digit_char(n % 10)]
    }
}

fn digit_to_char(d: u64) -> (c: char)
    requires
        d < 10,
    ensures
        c == digit_char(d as nat),
{
    let b: u8 = (48 + d) as u8;
    let c = b as char;
    assert(c == digit_char(d as nat));
    c
}

/// Appends the decimal text of `n` to `s`.
pub fn push_decimal(s: &mut String, n: u64)
    ensures
        final(s)@ == old(s)@ + decimal(n as nat),
    decreases n,
{
    if n >= 10 {
        push_decimal(s, n / 10);
    }
    let c = digit_to_char(n % 10);
    push_char(s, c);
    proof {
        if n < 10 {
            assert(n % 10 == n);
        }
    }
}

/// The decimal text of `n` (`n.to_string()`).
pub fn decimal_string(n: u64) -> (s: String)
    ensures
        s@ == decimal(n as nat),
{
    let mut s = String::new();
    push_decimal(&mut s, n);
    assert(s@ =~= decimal(n as nat));
    s
}

} // verus!
