//! Character-level helpers: whitespace, substring occurrences and line splitting.
use vstd::prelude::*;

verus! {

/// The characters with the Unicode `White_Space` property.
pub open spec fn is_whitespace_spec(c: char) -> bool {
    let n = c as u32;
    ||| 0x09 <= n <= 0x0D
    ||| n == 0x20
    ||| n == 0x85
    ||| n == 0xA0
    ||| n == 0x1680
    ||| 0x2000 <= n <= 0x200A
    ||| n == 0x2028
    ||| n == 0x2029
    ||| n == 0x202F
    ||| n == 0x205F
    ||| n == 0x3000
}

/// Whether `c` is whitespace.
#[verifier::when_used_as_spec(is_whitespace_spec)]
pub fn is_whitespace(c: char) -> (b: bool)
    ensures
        b == is_whitespace_spec(c),
{
    let n: u32 = c as u32;
    (0x09 <= n && n <= 0x0D) || n == 0x20 || n == 0x85 || n == 0xA0 || n == 0x1680 || (0x2000 <= n
        && n <= 0x200A) || n == 0x2028 || n == 0x2029 || n == 0x202F || n == 0x205F || n == 0x3000
}

/// A line is blank when it holds nothing but whitespace; the empty line is blank.
pub open spec fn is_blank(line: Seq<char>) -> bool {
    forall|i: int| 0 <= i < line.len() ==> is_whitespace_spec(#[trigger] line[i])
}

/// Whether `line` is blank.
pub fn blank(line: &[char]) -> (b: bool)
    ensures
        b == is_blank(line@),
{
    let mut i: usize = 0;
    while i < line.len()
        invariant
            i <= line.len(),
            forall|k: int| 0 <= k < i ==> is_whitespace_spec(#[trigger] line@[k]),
        decreases line.len() - i,
    {
        if !is_whitespace(line[i]) {
            return false;
        }
        i += 1;
    }
    true
}

/// The characters of `s`, in order.
pub fn to_chars(s: &str) -> (v: Vec<char>)
    ensures
        v@ == s@,
{
    let mut v: Vec<char> = Vec::new();
    for c in it: s.chars()
        invariant
            v@ == it.seq().take(it.index() as int),
    {
        v.push(c);
    }
    v
}

/// `marker` stands in `line` starting at index `i`.
pub open spec fn occurs_at(line: Seq<char>, marker: Seq<char>, i: int) -> bool {
    &&& 0 <= i
    &&& i + marker.len() <= line.len()
    &&& line.subrange(i, i + marker.len()) == marker
}

/// `marker` stands somewhere in `line`.
pub open spec fn present(line: Seq<char>, marker: Seq<char>) -> bool {
    exists|i: int| occurs_at(line, marker, i)
}

/// `marker` stands nowhere in `line`.
pub open spec fn absent(line: Seq<char>, marker: Seq<char>) -> bool {
    forall|i: int| !occurs_at(line, marker, i)
}

/// `marker` stands in `line` at `i` and nowhere else.
pub open spec fn only_at(line: Seq<char>, marker: Seq<char>, i: int) -> bool {
    &&& occurs_at(line, marker, i)
    &&& forall|j: int| occurs_at(line, marker, j) ==> j == i
}

/// `marker` stands in `line` at exactly one index.
pub open spec fn occurs_once(line: Seq<char>, marker: Seq<char>) -> bool {
    exists|i: int| only_at(line, marker, i)
}

/// `marker` stands in `line` at two indices or more.
pub open spec fn repeated(line: Seq<char>, marker: Seq<char>) -> bool {
    exists|i: int, j: int| i != j && occurs_at(line, marker, i) && occurs_at(line, marker, j)
}

/// `marker` stands in `line` at `i` and nowhere before `i`.
pub open spec fn first_at(line: Seq<char>, marker: Seq<char>, i: int) -> bool {
    &&& occurs_at(line, marker, i)
    &&& forall|j: int| j < i ==> !occurs_at(line, marker, j)
}

/// The first index at which `marker` stands in `line`, where it stands in it.
pub open spec fn position(line: Seq<char>, marker: Seq<char>) -> int {
    choose|i: int| first_at(line, marker, i)
}

/// The first index at which a marker stands is its position.
pub proof fn lemma_position(line: Seq<char>, marker: Seq<char>, i: int)
    requires
        first_at(line, marker, i),
    ensures
        position(line, marker) == i,
        present(line, marker),
{
    let k = position(line, marker);
    assert(first_at(line, marker, k));
    if k < i {
        assert(!occurs_at(line, marker, k));
    }
    if i < k {
        assert(!occurs_at(line, marker, i));
    }
}

/// How often a marker stands in a line: not at all, once, or more than once;
/// with the first index at which it stands.
#[derive(Clone, Copy, Debug)]
pub enum Occurrence {
    Absent,
    Once(usize),
    Repeated(usize),
}

/// Whether `marker` stands in `line` starting at index `i`.
pub fn matches_at(line: &[char], marker: &[char], i: usize) -> (b: bool)
    requires
        i + marker@.len() <= line@.len(),
    ensures
        b == occurs_at(line@, marker@, i as int),
{
    let mut k: usize = 0;
    while k < marker.len()
        invariant
            k <= marker.len(),
            i + marker.len() <= line.len(),
            forall|j: int| 0 <= j < k ==> line@[i + j] == marker@[j],
        decreases marker.len() - k,
    {
        if line[i + k] != marker[k] {
            assert(line@.subrange(i as int, i + marker@.len())[k as int] == line@[i + k]);
            return false;
        }
        k += 1;
    }
    assert(line@.subrange(i as int, i + marker@.len()) =~= marker@);
    true
}

/// What a scan knows after the indices below `end`: none found, or one at `p` and no other.
pub open spec fn seen_before(
    line: Seq<char>,
    marker: Seq<char>,
    found: Option<usize>,
    end: int,
) -> bool {
    match found {
        None => forall|j: int| j < end ==> !occurs_at(line, marker, j),
        Some(p) => p < end && occurs_at(line, marker, p as int) && forall|j: int|
            j < end && occurs_at(line, marker, j) ==> j == p,
    }
}

/// Counts, up to two, the indices at which `marker` stands in `line`, and
/// finds the first of them.
pub fn scan(line: &[char], marker: &[char]) -> (r: Occurrence)
    ensures
        match r {
            Occurrence::Absent => absent(line@, marker@),
            Occurrence::Once(i) => only_at(line@, marker@, i as int),
            Occurrence::Repeated(i) => first_at(line@, marker@, i as int) && repeated(
                line@,
                marker@,
            ),
        },
{
    if marker.len() > line.len() {
        return Occurrence::Absent;
    }
    let last: usize = line.len() - marker.len();
    let mut found: Option<usize> = None;
    let mut i: usize = 0;
    loop
        invariant_except_break
            i <= last,
            seen_before(line@, marker@, found, i as int),
        invariant
            last == line.len() - marker.len(),
        ensures
            seen_before(line@, marker@, found, last + 1),
        decreases last - i,
    {
        if matches_at(line, marker, i) {
            match found {
                Some(first) => {
                    assert(first != i && occurs_at(line@, marker@, first as int) && occurs_at(
                        line@,
                        marker@,
                        i as int,
                    ));
                    return Occurrence::Repeated(first);
                },
                None => {},
            }
            found = Some(i);
        }
        if i == last {
            break;
        }
        i += 1;
    }
    match found {
        None => Occurrence::Absent,
        Some(p) => Occurrence::Once(p),
    }
}

/// The segments of `text` between its line feeds: one more than it has line feeds.
pub open spec fn split_lines(text: Seq<char>) -> Seq<Seq<char>>
    decreases text.len(),
    via split_lines_decreases
{
    match text.index_of_first('\n') {
        None => seq![text],
        Some(i) => seq![text.take(i)] + split_lines(text.skip(i + 1)),
    }
}

#[via_fn]
proof fn split_lines_decreases(text: Seq<char>) {
    text.index_of_first_ensures('\n');
}

/// No line feed stands in `text` from `from` up to `to`.
pub open spec fn no_line_feed(text: Seq<char>, from: int, to: int) -> bool {
    forall|k: int| from <= k < to ==> text[k] != '\n'
}

/// A text without a line feed is one line.
pub proof fn lemma_split_last(text: Seq<char>)
    requires
        no_line_feed(text, 0, text.len() as int),
    ensures
        split_lines(text) == seq![text],
{
    text.index_of_first_ensures('\n');
    if text.contains('\n') {
        let k = choose|k: int| 0 <= k < text.len() && text[k] == '\n';
        assert(text[k] != '\n');
    }
}

/// A text whose first line feed stands at `i` is the line before it, then the lines after it.
pub proof fn lemma_split_at(text: Seq<char>, i: int)
    requires
        0 <= i < text.len(),
        text[i] == '\n',
        no_line_feed(text, 0, i),
    ensures
        split_lines(text) == seq![text.take(i)] + split_lines(text.skip(i + 1)),
{
    text.index_of_first_ensures('\n');
    assert(text.contains('\n'));
    let k = text.index_of_first('\n').unwrap();
    if k < i {
        assert(text[k] != '\n');
    }
}

} // verus!
