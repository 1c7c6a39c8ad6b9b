//! The output relay: one chunk of the child's output becomes log records.
//!
//! Each chunk is split at its line feeds on its own; a line that straddles two
//! chunks is seen as two lines. Blank lines are dropped. The classifier state
//! is carried from line to line and from chunk to chunk.
use crate::classifier::{classify_chars, classify_spec};
use crate::severity::{ClassifierState, Severity};
use crate::text::{
    blank, is_blank, lemma_split_at, lemma_split_last, no_line_feed, split_lines, to_chars,
};
use vstd::prelude::*;
use vstd::slice::slice_subrange;
use vstd::string::*;
use vstd::utf8::{decode_utf8, encode_utf8_decode_utf8, valid_utf8};

verus! {

/// One classified line: what the relay hands to the logger.
#[derive(Debug)]
pub struct LogRecord {
    pub severity: Severity,
    pub message: String,
}

impl View for LogRecord {
    type V = (Severity, Seq<char>);

    open spec fn view(&self) -> (Severity, Seq<char>) {
        (self.severity, self.message@)
    }
}

/// The records of `records`, each by its view.
pub open spec fn views(records: Seq<LogRecord>) -> Seq<(Severity, Seq<char>)> {
    records.map_values(|r: LogRecord| r@)
}

/// State after one line and the record it yields: none for a blank line.
pub open spec fn feed_spec(state: ClassifierState, line: Seq<char>) -> (
    ClassifierState,
    Option<(Severity, Seq<char>)>,
) {
    if is_blank(line) {
        (state, None)
    } else {
        let c = classify_spec(state, line);
        (c.0, Some((c.1, c.2)))
    }
}

/// State after `lines`, fed in order, and the records they yield.
pub open spec fn run_lines(state: ClassifierState, lines: Seq<Seq<char>>) -> (
    ClassifierState,
    Seq<(Severity, Seq<char>)>,
)
    decreases lines.len(),
{
    if lines.len() == 0 {
        (state, Seq::empty())
    } else {
        let first = feed_spec(state, lines[0]);
        let rest = run_lines(first.0, lines.drop_first());
        (
            rest.0,
            match first.1 {
                Some(record) => seq![record] + rest.1,
                None => rest.1,
            },
        )
    }
}

/// The text of a chunk: what its bytes encode, or nothing where they are not
/// well-formed UTF-8.
pub open spec fn chunk_text(bytes: Seq<u8>) -> Seq<char> {
    if valid_utf8(bytes) {
        decode_utf8(bytes)
    } else {
        Seq::empty()
    }
}

/// State after a chunk and the records it yields.
pub open spec fn process_spec(state: ClassifierState, bytes: Seq<u8>) -> (
    ClassifierState,
    Seq<(Severity, Seq<char>)>,
) {
    run_lines(state, split_lines(chunk_text(bytes)))
}

/// `std::str::from_utf8`: where `bytes` are well-formed UTF-8 the answer is
/// the text whose encoding they are, and where they are not there is none.
#[verifier::external_body]
fn utf8_text<'a>(bytes: &'a [u8]) -> (r: Option<&'a str>)
    ensures
        r is Some <==> valid_utf8(bytes@),
        r matches Some(text) ==> text.spec_bytes() == bytes@,
{
    std::str::from_utf8(bytes).ok()
}

/// Feeds one line to the classifier. A blank line yields no record and leaves
/// the state as it is.
pub fn feed_line(state: ClassifierState, line: &str) -> (r: (ClassifierState, Option<LogRecord>))
    ensures
        r.0 == feed_spec(state, line@).0,
        r.1 is Some <==> feed_spec(state, line@).1 is Some,
        r.1 matches Some(record) ==> Some(record@) == feed_spec(state, line@).1,
{
    let chars = to_chars(line);
    assert(line@.subrange(0, chars@.len() as int) =~= line@);
    feed_span(state, line, chars.as_slice(), 0, chars.len())
}

/// Feeds the line that `text` holds from `from` up to `to`.
fn feed_span(state: ClassifierState, text: &str, chars: &[char], from: usize, to: usize) -> (r: (
    ClassifierState,
    Option<LogRecord>,
))
    requires
        chars@ == text@,
        from <= to <= chars@.len(),
    ensures
        r.0 == feed_spec(state, text@.subrange(from as int, to as int)).0,
        r.1 is Some <==> feed_spec(state, text@.subrange(from as int, to as int)).1 is Some,
        r.1 matches Some(record) ==> Some(record@) == feed_spec(
            state,
            text@.subrange(from as int, to as int),
        ).1,
{
    let line = slice_subrange(chars, from, to);
    if blank(line) {
        return (state, None);
    }
    let (next, severity, start) = classify_chars(state, line);
    let message = text.substring_char(from + start, to).to_owned();
    assert(text@.subrange(from + start, to as int) =~= line@.skip(start as int));
    (next, Some(LogRecord { severity, message }))
}

/// A run over a first line and the lines after it.
proof fn lemma_run_step(state: ClassifierState, first: Seq<char>, rest: Seq<Seq<char>>)
    ensures
        run_lines(state, seq![first] + rest) == ({
            let fed = feed_spec(state, first);
            let tail = run_lines(fed.0, rest);
            (
                tail.0,
                match fed.1 {
                    Some(record) => seq![record] + tail.1,
                    None => tail.1,
                },
            )
        }),
{
    let lines = seq![first] + rest;
    assert(lines[0] == first);
    assert(lines.drop_first() =~= rest);
}

/// Classifies the lines of one chunk of the child's output.
///
/// Returns the state after the chunk and the records of its lines that are not
/// blank, in the order of the lines.
pub fn process_chunk(state: ClassifierState, bytes: &[u8]) -> (r: (ClassifierState, Vec<LogRecord>))
    ensures
        r.0 == process_spec(state, bytes@).0,
        views(r.1@) == process_spec(state, bytes@).1,
{
    let text: &str = match utf8_text(bytes) {
        Some(text) => {
            proof {
                encode_utf8_decode_utf8(text@);
            }
            text
        },
        None => {
            proof {
                reveal_strlit("");
            }
            ""
        },
    };
    assert(text@ =~= chunk_text(bytes@));
    let chars = to_chars(text);
    let n = chars.len();
    let mut records: Vec<LogRecord> = Vec::new();
    let mut current = state;
    let mut from: usize = 0;
    let mut at: usize = 0;
    assert(text@.skip(0) =~= text@);
    assert(views(records@) =~= Seq::empty());
    while at < n
        invariant
            chars@ == text@,
            n == chars@.len(),
            from <= at <= n,
            no_line_feed(text@, from as int, at as int),
            run_lines(state, split_lines(text@)).0 == run_lines(
                current,
                split_lines(text@.skip(from as int)),
            ).0,
            run_lines(state, split_lines(text@)).1 == views(records@) + run_lines(
                current,
                split_lines(text@.skip(from as int)),
            ).1,
        decreases n - at,
    {
        if chars[at] == '\n' {
            let ghost before = views(records@);
            let ghost tail = text@.skip(from as int);
            let ghost line = text@.subrange(from as int, at as int);
            let (next, record) = feed_span(current, text, chars.as_slice(), from, at);
            proof {
                lemma_split_at(tail, at - from);
                assert(tail.take(at - from) =~= line);
                assert(tail.skip(at - from + 1) =~= text@.skip(at + 1));
                lemma_run_step(current, line, split_lines(text@.skip(at + 1)));
            }
            match record {
                Some(record) => {
                    records.push(record);
                    proof {
                        let after = run_lines(next, split_lines(text@.skip(at + 1))).1;
                        assert(views(records@) =~= before.push(record@));
                        assert(before + (seq![record@] + after) =~= before.push(record@) + after);
                    }
                },
                None => {},
            }
            current = next;
            from = at + 1;
        }
        at += 1;
    }
    let ghost before = views(records@);
    let ghost line = text@.subrange(from as int, n as int);
    let (next, record) = feed_span(current, text, chars.as_slice(), from, n);
    proof {
        assert(text@.skip(from as int) =~= line);
        lemma_split_last(line);
        lemma_run_step(current, line, Seq::empty());
        assert(seq![line] + Seq::<Seq<char>>::empty() =~= seq![line]);
    }
    match record {
        Some(record) => {
            records.push(record);
            proof {
                assert(views(records@) =~= before.push(record@));
                assert(before + (seq![record@] + Seq::empty()) =~= before.push(record@));
            }
        },
        None => {
            assert(before + Seq::<(Severity, Seq<char>)>::empty() =~= before);
        },
    }
    (next, records)
}

/// The state carries over: feeding lines in two batches, the second from
/// the state that the first left, yields what feeding them in one batch
/// yields, records in the order of the lines.
pub proof fn law_state_carries_over(
    state: ClassifierState,
    first: Seq<Seq<char>>,
    second: Seq<Seq<char>>,
)
    ensures
        run_lines(state, first + second).0 == run_lines(run_lines(state, first).0, second).0,
        run_lines(state, first + second).1 == run_lines(state, first).1 + run_lines(
            run_lines(state, first).0,
            second,
        ).1,
    decreases first.len(),
{
    if first.len() == 0 {
        assert(first + second =~= second);
        assert(Seq::<(Severity, Seq<char>)>::empty() + run_lines(state, second).1 =~= run_lines(
            state,
            second,
        ).1);
    } else {
        let fed = feed_spec(state, first[0]);
        let all = first + second;
        assert(all[0] == first[0]);
        assert(all.drop_first() =~= first.drop_first() + second);
        law_state_carries_over(fed.0, first.drop_first(), second);
        let head = run_lines(fed.0, first.drop_first());
        let tail = run_lines(head.0, second);
        match fed.1 {
            Some(record) => {
                assert(seq![record] + (head.1 + tail.1) =~= (seq![record] + head.1) + tail.1);
            },
            None => {},
        }
    }
}

/// A blank line changes nothing: fed anywhere among other lines, it leaves
/// the state and the records as they are without it.
pub proof fn law_blank_line_is_dropped(
    state: ClassifierState,
    first: Seq<Seq<char>>,
    line: Seq<char>,
    second: Seq<Seq<char>>,
)
    requires
        is_blank(line),
    ensures
        run_lines(state, first + seq![line] + second) == run_lines(state, first + second),
{
    let after = run_lines(state, first).0;
    law_state_carries_over(state, first, seq![line] + second);
    law_state_carries_over(state, first, second);
    lemma_run_step(after, line, second);
    assert(first + seq![line] + second =~= first + (seq![line] + second));
}

} // verus!
