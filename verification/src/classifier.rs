//! Classification of the child's output lines into severities.
//!
//! A line that carries a severity marker sets the state and is reported at
//! that severity, the highest where it carries several; a line without a
//! marker continues the line before it.
use crate::severity::{ClassifierState, Severity};
use crate::text::{
    absent, first_at, lemma_position, occurs_at, occurs_once, only_at, position, present,
    repeated, scan, to_chars, Occurrence,
};
use vstd::prelude::*;
use vstd::string::*;

verus! {

/// The text by which the child announces a severity.
pub open spec fn marker(severity: Severity) -> Seq<char> {
    match severity {
        Severity::Error => " ERROR]"@,
        Severity::Warn => " WARN]"@,
        Severity::Info => " INFO]"@,
    }
}

/// The state that a marker of `severity` establishes.
pub open spec fn state_of(severity: Severity) -> ClassifierState {
    match severity {
        Severity::Error => ClassifierState::Error,
        Severity::Warn => ClassifierState::Warn,
        Severity::Info => ClassifierState::Info,
    }
}

/// `rest` without the one space that separates a marker from its message.
pub open spec fn strip_separator(rest: Seq<char>) -> Seq<char> {
    if rest.len() > 0 && rest[0] == ' ' {
        rest.drop_first()
    } else {
        rest
    }
}

/// The message of a line that carries `marker`: what follows the first
/// place at which the marker stands, without the separating space.
pub open spec fn message_after(line: Seq<char>, marker: Seq<char>) -> Seq<char> {
    strip_separator(line.skip(position(line, marker) + marker.len()))
}

/// The highest marker that stands in the line: Error ranks above Warn, and
/// Warn above Info.
pub open spec fn top_marker(line: Seq<char>) -> Option<Severity> {
    if present(line, marker(Severity::Error)) {
        Some(Severity::Error)
    } else if present(line, marker(Severity::Warn)) {
        Some(Severity::Warn)
    } else if present(line, marker(Severity::Info)) {
        Some(Severity::Info)
    } else {
        None
    }
}

/// A marker of another severity than `severity` stands in the line.
pub open spec fn beside_another(line: Seq<char>, severity: Severity) -> bool {
    match severity {
        Severity::Error => present(line, marker(Severity::Warn)) || present(
            line,
            marker(Severity::Info),
        ),
        Severity::Warn => present(line, marker(Severity::Error)) || present(
            line,
            marker(Severity::Info),
        ),
        Severity::Info => present(line, marker(Severity::Error)) || present(
            line,
            marker(Severity::Warn),
        ),
    }
}

/// The marker that decides a line: the highest marker that stands in it,
/// where it stands there once, or beside a marker of another severity.
/// A line whose only markers are of one severity, and more than one of them,
/// is decided by none.
pub open spec fn deciding_marker(line: Seq<char>) -> Option<Severity> {
    match top_marker(line) {
        Some(top) => if occurs_once(line, marker(top)) || beside_another(line, top) {
            Some(top)
        } else {
            None
        },
        None => None,
    }
}

/// The line carries none of the three markers.
pub open spec fn is_continuation(line: Seq<char>) -> bool {
    top_marker(line) is None
}

/// State after the line, severity and message of the line.
///
/// A deciding marker sets the state and the severity, and the message is what
/// follows the first place at which it stands. A continuation line keeps the
/// state and is reported whole at the state's severity. Any other line, one
/// whose markers are all of one severity and more than one, keeps the state
/// and is reported whole at Info.
pub open spec fn classify_spec(state: ClassifierState, line: Seq<char>) -> (
    ClassifierState,
    Severity,
    Seq<char>,
) {
    match deciding_marker(line) {
        Some(severity) => (state_of(severity), severity, message_after(line, marker(severity))),
        None => if is_continuation(line) {
            (state, state.spec_severity(), line)
        } else {
            (state, Severity::Info, line)
        },
    }
}

/// The characters of the marker of `severity`.
pub fn marker_chars(severity: Severity) -> (v: Vec<char>)
    ensures
        v@ == marker(severity),
{
    match severity {
        Severity::Error => to_chars(" ERROR]"),
        Severity::Warn => to_chars(" WARN]"),
        Severity::Info => to_chars(" INFO]"),
    }
}

/// Where the message starts in a line in which `marker` stands first at `at`.
fn message_start(line: &[char], marker: &[char], at: usize) -> (start: usize)
    requires
        first_at(line@, marker@, at as int),
    ensures
        start <= line@.len(),
        line@.skip(start as int) == message_after(line@, marker@),
{
    proof {
        lemma_position(line@, marker@, at as int);
    }
    assert(at + marker.len() <= line.len());
    let after: usize = at + marker.len();
    if after < line.len() && line[after] == ' ' {
        assert(line@.skip(after as int).drop_first() =~= line@.skip(after + 1));
        after + 1
    } else {
        after
    }
}

/// Whether the scan found the marker at all.
fn found_any(found: Occurrence) -> (any: bool)
    ensures
        any == !(found is Absent),
{
    match found {
        Occurrence::Absent => false,
        _ => true,
    }
}

/// Classifies the characters of one line. The message is the line from the
/// returned index on.
pub fn classify_chars(state: ClassifierState, line: &[char]) -> (r: (
    ClassifierState,
    Severity,
    usize,
))
    ensures
        r.0 == classify_spec(state, line@).0,
        r.1 == classify_spec(state, line@).1,
        r.2 <= line@.len(),
        line@.skip(r.2 as int) == classify_spec(state, line@).2,
{
    let e = marker_chars(Severity::Error);
    let w = marker_chars(Severity::Warn);
    let i = marker_chars(Severity::Info);
    let in_e = scan(line, e.as_slice());
    let in_w = scan(line, w.as_slice());
    let in_i = scan(line, i.as_slice());
    proof {
        lemma_occurrence(line@, e@, in_e);
        lemma_occurrence(line@, w@, in_w);
        lemma_occurrence(line@, i@, in_i);
        assert(line@.skip(0) =~= line@);
    }
    let whole = (state, Severity::Info, 0);
    match in_e {
        Occurrence::Once(at) => {
            (ClassifierState::Error, Severity::Error, message_start(line, e.as_slice(), at))
        },
        Occurrence::Repeated(at) => {
            if found_any(in_w) || found_any(in_i) {
                (ClassifierState::Error, Severity::Error, message_start(line, e.as_slice(), at))
            } else {
                whole
            }
        },
        Occurrence::Absent => match in_w {
            Occurrence::Once(at) => {
                (ClassifierState::Warn, Severity::Warn, message_start(line, w.as_slice(), at))
            },
            Occurrence::Repeated(at) => {
                if found_any(in_i) {
                    (ClassifierState::Warn, Severity::Warn, message_start(line, w.as_slice(), at))
                } else {
                    whole
                }
            },
            Occurrence::Absent => match in_i {
                Occurrence::Once(at) => {
                    (ClassifierState::Info, Severity::Info, message_start(line, i.as_slice(), at))
                },
                Occurrence::Repeated(_) => whole,
                Occurrence::Absent => (state, state.severity(), 0),
            },
        },
    }
}

/// What a scan found decides which of absent, once and repeated holds:
/// exactly one of them; and where the marker stands, where it stands first.
pub proof fn lemma_occurrence(line: Seq<char>, marker: Seq<char>, found: Occurrence)
    requires
        match found {
            Occurrence::Absent => absent(line, marker),
            Occurrence::Once(i) => only_at(line, marker, i as int),
            Occurrence::Repeated(i) => first_at(line, marker, i as int) && repeated(line, marker),
        },
    ensures
        absent(line, marker) <==> found is Absent,
        present(line, marker) <==> !(found is Absent),
        occurs_once(line, marker) <==> found is Once,
        repeated(line, marker) <==> found is Repeated,
        found matches Occurrence::Once(i) ==> first_at(line, marker, i as int),
{
    if occurs_once(line, marker) {
        let k = choose|k: int| only_at(line, marker, k);
        assert(occurs_at(line, marker, k));
    }
    if repeated(line, marker) {
        let (a, b) = choose|a: int, b: int|
            a != b && occurs_at(line, marker, a) && occurs_at(line, marker, b);
        assert(occurs_at(line, marker, a) && occurs_at(line, marker, b));
    }
    if present(line, marker) {
        let k = choose|k: int| occurs_at(line, marker, k);
        assert(occurs_at(line, marker, k));
    }
    match found {
        Occurrence::Absent => {},
        Occurrence::Once(i) => {
            assert(only_at(line, marker, i as int));
            assert(occurs_at(line, marker, i as int));
        },
        Occurrence::Repeated(i) => {
            assert(occurs_at(line, marker, i as int));
        },
    }
}

/// Classifies one line of the child's output.
///
/// Returns the state after the line, the severity of the line and its message.
/// Every line is classified, a blank one as a continuation line: to drop
/// blank lines is the relay's part.
pub fn classify(state: ClassifierState, line: &str) -> (r: (ClassifierState, Severity, String))
    ensures
        r.0 == classify_spec(state, line@).0,
        r.1 == classify_spec(state, line@).1,
        r.2@ == classify_spec(state, line@).2,
{
    let chars = to_chars(line);
    let (next, severity, start) = classify_chars(state, chars.as_slice());
    let message = line.substring_char(start, chars.len()).to_owned();
    assert(line@.subrange(start as int, chars@.len() as int) =~= line@.skip(start as int));
    (next, severity, message)
}

/// A line that carries the Error marker is never reported at Warn and never
/// sets the state to Warn, whatever else it carries.
pub proof fn law_error_marker_never_warn(state: ClassifierState, line: Seq<char>)
    requires
        present(line, marker(Severity::Error)),
    ensures
        classify_spec(state, line).1 != Severity::Warn,
        classify_spec(state, line).0 == state || classify_spec(state, line).0
            == ClassifierState::Error,
{
}

/// A line that carries both the Error marker and the Warn marker, each
/// however often and in whatever order, is reported at Error and sets the
/// state to Error; its message is what follows the first Error marker.
pub proof fn law_error_outranks_warn(state: ClassifierState, line: Seq<char>)
    requires
        present(line, marker(Severity::Error)),
        present(line, marker(Severity::Warn)),
    ensures
        classify_spec(state, line).0 == ClassifierState::Error,
        classify_spec(state, line).1 == Severity::Error,
        classify_spec(state, line).2 == message_after(line, marker(Severity::Error)),
{
}

/// A line that carries both the Warn marker and the Info marker, each
/// however often, and no Error marker, is reported at Warn and sets the state
/// to Warn; its message is what follows the first Warn marker.
pub proof fn law_warn_outranks_info(state: ClassifierState, line: Seq<char>)
    requires
        !present(line, marker(Severity::Error)),
        present(line, marker(Severity::Warn)),
        present(line, marker(Severity::Info)),
    ensures
        classify_spec(state, line).0 == ClassifierState::Warn,
        classify_spec(state, line).1 == Severity::Warn,
        classify_spec(state, line).2 == message_after(line, marker(Severity::Warn)),
{
}

/// The highest marker wins: wherever markers of two severities or more
/// stand in a line, the line is reported at the highest of them, however
/// often each stands, and the state is set to it.
pub proof fn law_highest_marker_wins(state: ClassifierState, line: Seq<char>, top: Severity)
    requires
        top_marker(line) == Some(top),
        beside_another(line, top),
    ensures
        classify_spec(state, line) == (
            state_of(top),
            top,
            message_after(line, marker(top)),
        ),
{
}

/// A marker that stands in a line once, with no marker above it, decides the
/// line, whatever stands in it of the markers below.
pub proof fn law_single_marker_decides(state: ClassifierState, line: Seq<char>, top: Severity)
    requires
        top_marker(line) == Some(top),
        occurs_once(line, marker(top)),
    ensures
        classify_spec(state, line) == (
            state_of(top),
            top,
            message_after(line, marker(top)),
        ),
{
}

/// A line whose markers are all of one severity, and more than one of them,
/// keeps the state and is reported whole at Info.
pub proof fn law_repeated_alone_keeps_state(state: ClassifierState, line: Seq<char>, top: Severity)
    requires
        top_marker(line) == Some(top),
        !occurs_once(line, marker(top)),
        !beside_another(line, top),
    ensures
        classify_spec(state, line) == (state, Severity::Info, line),
{
}

/// A line without a marker keeps the state and is reported whole at the
/// state's severity; fed again, it is reported the same way.
pub proof fn law_continuation_keeps_state(state: ClassifierState, line: Seq<char>)
    requires
        is_continuation(line),
    ensures
        classify_spec(state, line) == (state, state.spec_severity(), line),
        classify_spec(classify_spec(state, line).0, line) == classify_spec(state, line),
{
}

/// The severity of a line agrees with the state after it whenever the line
/// sets the state: a marker line is reported at the severity it establishes.
pub proof fn law_marker_sets_state(state: ClassifierState, line: Seq<char>)
    requires
        deciding_marker(line) is Some,
    ensures
        classify_spec(state, line).0.spec_severity() == classify_spec(state, line).1,
        classify_spec(state, line).0 == state_of(deciding_marker(line)->0),
{
}

} // verus!
