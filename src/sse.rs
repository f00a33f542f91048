//! Reading the `data:` events of a server-sent-event stream.
//!
//! A stream arrives in chunks that need not end at a line break, so a client
//! keeps a buffer: it appends each chunk, takes out the complete lines, and
//! keeps the unfinished last line for the next chunk. A line `data: <payload>`
//! carries one event; the payload `[DONE]` ends the stream; other lines are
//! ignored.

use vstd::prelude::*;
use vstd::string::StrSliceExecFns;

verus! {

/// What the complete lines of a buffer yield.
#[derive(Debug, Clone, PartialEq, Eq)]
pub struct SseBatch {
    /// The payloads of the `data:` lines, in order.
    pub payloads: Vec<String>,
    /// The `[DONE]` event was reached: the stream is over.
    pub done: bool,
    /// What follows the last complete line read, to be kept for the next chunk.
    pub rest: String,
}

pub open spec fn data_prefix() -> Seq<char> {
    "data: "@
}

pub open spec fn done_marker() -> Seq<char> {
    "[DONE]"@
}

/// The position of the first line break in `s` at `i` or later.
pub open spec fn newline_from(s: Seq<char>, i: int) -> Option<int>
    decreases s.len() - i,
{
    if i < 0 || i >= s.len() {
        None
    } else if s[i] == '\n' {
        Some(i)
    } else {
        newline_from(s, i + 1)
    }
}

pub open spec fn is_data_line(line: Seq<char>) -> bool {
    line.len() >= 6 && line.take(6) == data_prefix()
}

/// The payloads of the complete lines of `s` up to the `[DONE]` event, whether
/// that event came, and the text after the last line read.
pub open spec fn drain(s: Seq<char>) -> (Seq<Seq<char>>, bool, Seq<char>)
    decreases s.len(),
{
    match newline_from(s, 0) {
        Some(i) => if 0 <= i < s.len() {
            let line = s.take(i);
            let tail = s.skip(i + 1);
            if is_data_line(line) && line.skip(6) == done_marker() {
                (Seq::empty(), true, tail)
            } else {
                let r = drain(tail);
                if is_data_line(line) {
                    (seq![line.skip(6)] + r.0, r.1, r.2)
                } else {
                    r
                }
            }
        } else {
            (Seq::empty(), false, s)
        },
        None => (Seq::empty(), false, s),
    }
}

pub open spec fn texts(v: Seq<String>) -> Seq<Seq<char>> {
    v.map_values(|p: String| p@)
}

/// Takes the complete lines out of `buffer`: the payloads of its `data:`
/// lines up to a `[DONE]` event, whether that event came, and the text left
/// after the last line read.
pub fn drain_events(buffer: &str) -> (r: SseBatch)
    ensures
        (texts(r.payloads@), r.done, r.rest@) == drain(buffer@),
{
    proof {
        reveal_strlit("data: ");
        reveal_strlit("[DONE]");
    }
    let prefix = "data: ".to_owned();
    let marker = "[DONE]".to_owned();
    let mut payloads: Vec<String> = Vec::new();
    let mut cur: String = buffer.to_owned();
    loop
        invariant
            prefix@ == data_prefix(),
            marker@ == done_marker(),
            drain(buffer@) == (texts(payloads@) + drain(cur@).0, drain(cur@).1, drain(cur@).2),
        decreases cur@.len(),
    {
        let n: usize = cur.as_str().unicode_len();
        let mut i: usize = 0;
        while i < n && cur.as_str().get_char(i) != '\n'
            invariant
                i <= n,
                n == cur@.len(),
                newline_from(cur@, 0) == newline_from(cur@, i as int),
            decreases n - i,
        {
            i = i + 1;
        }
        if i == n {
            proof {
                assert(texts(payloads@) + Seq::<Seq<char>>::empty() =~= texts(payloads@));
            }
            return SseBatch { payloads, done: false, rest: cur };
        }
        let line = cur.as_str().substring_char(0, i);
        let tail = cur.as_str().substring_char(i + 1, n).to_owned();
        let ghost old_payloads = texts(payloads@);
        let ln: usize = line.unicode_len();
        if ln >= 6 && line.substring_char(0, 6).to_owned() == prefix {
            let data = line.substring_char(6, ln).to_owned();
            if data == marker {
                proof {
                    assert(texts(payloads@) + Seq::<Seq<char>>::empty() =~= texts(payloads@));
                }
                return SseBatch { payloads, done: true, rest: tail };
            }
            payloads.push(data);
            proof {
                assert(texts(payloads@) =~= old_payloads.push(data@));
                let r = drain(tail@);
                assert(old_payloads + (seq![data@] + r.0) =~= texts(payloads@) + r.0);
            }
        }
        cur = tail;
    }
}

} // verus!
