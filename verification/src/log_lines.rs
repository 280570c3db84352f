//! Cutting the engine's log output into console lines: bytes arrive in
//! arbitrary chunks, each complete line becomes one trimmed message, and
//! an unfinished line waits for the rest of its bytes.

use vstd::prelude::*;
use crate::text::{chars_of, trim, trimmed};
use vstd::utf8::{decode_utf8, valid_utf8};

verus! {

/// The text that `String::from_utf8_lossy` makes of some bytes.
pub uninterp spec fn utf8_lossy(bytes: Seq<u8>) -> Seq<char>;

/// `String::from_utf8_lossy(bytes)`, owned. Its result is named by
/// [`utf8_lossy`]. As its documentation says, valid UTF-8 comes back as the
/// characters it encodes; how invalid sequences are replaced is not stated.
#[verifier::external_body]
fn decode_lossy(bytes: &[u8]) -> (s: String)
    ensures
        s@ == utf8_lossy(bytes@),
        valid_utf8(bytes@) ==> s@ == decode_utf8(bytes@),
{
    String::from_utf8_lossy(bytes).into_owned()
}

/// The position of the first newline byte in `b`.
pub open spec fn first_newline(b: Seq<u8>) -> Option<int>
    decreases b.len(),
{
    if b.len() == 0 {
        None
    } else if b[0] == 10u8 {
        Some(0)
    } else {
        match first_newline(b.drop_first()) {
            Some(k) => Some(k + 1),
            None => None,
        }
    }
}

/// Characterises [`first_newline`] by the positions it names.
pub proof fn lemma_first_newline(b: Seq<u8>)
    ensures
        match first_newline(b) {
            Some(k) => 0 <= k < b.len() && b[k] == 10u8 && forall|j: int|
                0 <= j < k ==> #[trigger] b[j] != 10u8,
            None => forall|j: int| 0 <= j < b.len() ==> #[trigger] b[j] != 10u8,
        },
    decreases b.len(),
{
    if b.len() > 0 && b[0] != 10u8 {
        let t = b.drop_first();
        lemma_first_newline(t);
        match first_newline(t) {
            Some(k) => {
                assert(b[k + 1] == t[k]);
                assert forall|j: int| 0 <= j < k + 1 implies #[trigger] b[j] != 10u8 by {
                    if j > 0 {
                        assert(b[j] == t[j - 1]);
                    }
                }
            },
            None => {
                assert forall|j: int| 0 <= j < b.len() implies #[trigger] b[j] != 10u8 by {
                    if j > 0 {
                        assert(b[j] == t[j - 1]);
                    }
                }
            },
        }
    }
}

/// The complete lines of `b`, each with its newline, in order.
pub open spec fn complete_lines(b: Seq<u8>) -> Seq<Seq<u8>>
    decreases b.len(),
{
    match first_newline(b) {
        Some(k) => {
            proof {
                lemma_first_newline(b);
            }
            seq![b.take(k + 1)] + complete_lines(b.skip(k + 1))
        },
        None => Seq::empty(),
    }
}

/// The bytes of `b` after its last newline: an unfinished line.
pub open spec fn unfinished_line(b: Seq<u8>) -> Seq<u8>
    decreases b.len(),
{
    match first_newline(b) {
        Some(k) => {
            proof {
                lemma_first_newline(b);
            }
            unfinished_line(b.skip(k + 1))
        },
        None => b,
    }
}

/// The text of a line's bytes: the characters they encode where they are
/// valid UTF-8, else what `String::from_utf8_lossy` makes of them.
pub open spec fn line_text(line: Seq<u8>) -> Seq<char> {
    if valid_utf8(line) {
        decode_utf8(line)
    } else {
        utf8_lossy(line)
    }
}

/// The console message of one complete line: its text, trimmed, if that
/// is not empty.
pub open spec fn line_message(line: Seq<u8>) -> Option<Seq<char>> {
    let t = trimmed(line_text(line));
    if t.len() > 0 {
        Some(t)
    } else {
        None
    }
}

/// The messages of some complete lines, in order.
pub open spec fn line_messages(lines: Seq<Seq<u8>>) -> Seq<Seq<char>>
    decreases lines.len(),
{
    if lines.len() == 0 {
        Seq::empty()
    } else {
        let r = line_messages(lines.drop_last());
        match line_message(lines.last()) {
            Some(m) => r.push(m),
            None => r,
        }
    }
}

/// All the bytes of some lines, in order.
pub open spec fn flatten(lines: Seq<Seq<u8>>) -> Seq<u8>
    decreases lines.len(),
{
    if lines.len() == 0 {
        Seq::empty()
    } else {
        flatten(lines.drop_last()) + lines.last()
    }
}

proof fn lemma_line_messages_append(a: Seq<Seq<u8>>, x: Seq<u8>)
    ensures
        line_messages(a.push(x)) == match line_message(x) {
            Some(m) => line_messages(a).push(m),
            None => line_messages(a),
        },
{
    assert(a.push(x).drop_last() =~= a);
}

proof fn lemma_flatten_push(a: Seq<Seq<u8>>, x: Seq<u8>)
    ensures
        flatten(a.push(x)) == flatten(a) + x,
{
    assert(a.push(x).drop_last() =~= a);
}

proof fn lemma_flatten_prepend(x: Seq<u8>, a: Seq<Seq<u8>>)
    ensures
        flatten(seq![x] + a) == x + flatten(a),
    decreases a.len(),
{
    if a.len() == 0 {
        assert(seq![x] + a =~= Seq::<Seq<u8>>::empty().push(x));
        lemma_flatten_push(Seq::<Seq<u8>>::empty(), x);
        assert(x + Seq::<u8>::empty() =~= x);
        assert(Seq::<u8>::empty() + x =~= x);
    } else {
        lemma_flatten_prepend(x, a.drop_last());
        assert((seq![x] + a).drop_last() =~= seq![x] + a.drop_last());
        assert((seq![x] + a).last() == a.last());
        assert(x + (flatten(a.drop_last()) + a.last()) =~= (x + flatten(a.drop_last()))
            + a.last());
    }
}

/// The complete lines and the unfinished line together are all the bytes:
/// nothing is lost or repeated, and the unfinished line holds no newline.
pub proof fn law_lines_keep_every_byte(b: Seq<u8>)
    ensures
        flatten(complete_lines(b)) + unfinished_line(b) == b,
        !unfinished_line(b).contains(10u8),
        forall|i: int|
            0 <= i < complete_lines(b).len() ==> #[trigger] complete_lines(b)[i].len() > 0
                && complete_lines(b)[i].last() == 10u8,
    decreases b.len(),
{
    lemma_first_newline(b);
    match first_newline(b) {
        Some(k) => {
            let rest = b.skip(k + 1);
            law_lines_keep_every_byte(rest);
            lemma_flatten_prepend(b.take(k + 1), complete_lines(rest));
            let t = b.take(k + 1);
            let f = flatten(complete_lines(rest));
            let u = unfinished_line(rest);
            assert((t + f) + u =~= t + (f + u));
            assert(t + rest =~= b);
            let ls = complete_lines(b);
            assert(ls == seq![b.take(k + 1)] + complete_lines(rest));
            assert forall|i: int| 0 <= i < ls.len() implies #[trigger] ls[i].len() > 0
                && ls[i].last() == 10u8 by {
                if i > 0 {
                    assert(ls[i] == complete_lines(rest)[i - 1]);
                }
            }
        },
        None => {
            assert(Seq::<u8>::empty() + b =~= b);
            if b.contains(10u8) {
                let j = choose|j: int| 0 <= j < b.len() && b[j] == 10u8;
                assert(b[j] != 10u8);
            }
        },
    }
}

/// The console message of one decoded line: the text trimmed, if that is
/// not empty.
pub fn message_of(decoded: &str) -> (m: Option<String>)
    ensures
        match m {
            Some(s) => trimmed(decoded@).len() > 0 && s@ == trimmed(decoded@),
            None => trimmed(decoded@).len() == 0,
        },
{
    let t = trim(decoded);
    if chars_of(t.as_str()).len() > 0 {
        Some(t)
    } else {
        None
    }
}

/// Bytes written to the log that do not yet end a line.
pub struct LineBuffer {
    buffer: Vec<u8>,
}

impl LineBuffer {
    /// The bytes waiting for the end of their line.
    pub closed spec fn waiting(&self) -> Seq<u8> {
        self.buffer@
    }

    /// An empty buffer.
    pub fn new() -> (r: Self)
        ensures
            r.waiting() == Seq::<u8>::empty(),
    {
        LineBuffer { buffer: Vec::new() }
    }

    /// Takes more log output and gives back the console message of every
    /// line it completes, in order; blank lines give none.
    pub fn push(&mut self, bytes: &[u8]) -> (messages: Vec<String>)
        ensures
            final(self).waiting() == unfinished_line(old(self).waiting() + bytes@),
            messages@.map_values(|s: String| s@) == line_messages(
                complete_lines(old(self).waiting() + bytes@),
            ),
    {
        let ghost all = self.buffer@ + bytes@;
        let ghost start = self.buffer@;
        let mut i: usize = 0;
        while i < bytes.len()
            invariant
                i <= bytes@.len(),
                all == start + bytes@,
                self.buffer@ == start + bytes@.take(i as int),
            decreases bytes@.len() - i,
        {
            self.buffer.push(bytes[i]);
            assert(start + bytes@.take(i + 1) =~= (start + bytes@.take(i as int)).push(bytes@[i as int]));
            i = i + 1;
        }
        assert(bytes@.take(bytes@.len() as int) =~= bytes@);
        let mut messages: Vec<String> = Vec::new();
        let ghost mut done: Seq<Seq<u8>> = Seq::empty();
        assert(complete_lines(all) =~= done + complete_lines(self.buffer@));
        loop
            invariant
                complete_lines(all) == done + complete_lines(self.buffer@),
                unfinished_line(all) == unfinished_line(self.buffer@),
                messages@.map_values(|s: String| s@) == line_messages(done),
            ensures
                complete_lines(all) == done,
                unfinished_line(all) == self.buffer@,
                messages@.map_values(|s: String| s@) == line_messages(done),
            decreases self.buffer@.len(),
        {
            let mut k: usize = 0;
            while k < self.buffer.len() && self.buffer[k] != 10u8
                invariant
                    k <= self.buffer@.len(),
                    forall|j: int| 0 <= j < k ==> #[trigger] self.buffer@[j] != 10u8,
                decreases self.buffer@.len() - k,
            {
                k = k + 1;
            }
            proof {
                lemma_first_newline(self.buffer@);
            }
            if k == self.buffer.len() {
                proof {
                    if first_newline(self.buffer@) is Some {
                        let m = first_newline(self.buffer@)->0;
                        assert(self.buffer@[m] != 10u8);
                    }
                    assert(done + complete_lines(self.buffer@) =~= done);
                }
                break;
            }
            let ghost b = self.buffer@;
            proof {
                match first_newline(b) {
                    Some(m) => {
                        if m < k {
                            assert(b[m] == 10u8);
                        } else if m > k {
                            assert(b[k as int] != 10u8);
                        }
                    },
                    None => {
                        assert(b[k as int] != 10u8);
                    },
                }
            }
            let mut line = self.buffer.split_off(k + 1);
            std::mem::swap(&mut line, &mut self.buffer);
            proof {
                assert(line@ =~= b.take(k + 1));
                assert(self.buffer@ =~= b.skip(k + 1));
                assert(complete_lines(b) == seq![line@] + complete_lines(self.buffer@));
                assert(done + complete_lines(b) =~= done.push(line@) + complete_lines(
                    self.buffer@,
                ));
                lemma_line_messages_append(done, line@);
            }
            let decoded = decode_lossy(line.as_slice());
            let ghost before = messages@.map_values(|s: String| s@);
            match message_of(decoded.as_str()) {
                Some(m) => {
                    messages.push(m);
                    assert(messages@.map_values(|s: String| s@) =~= before.push(
                        trimmed(line_text(line@)),
                    ));
                },
                None => {},
            }
            proof {
                done = done.push(line@);
            }
        }
        messages
    }
}

} // verus!
