use siriusu::relay::{feed_line, process_chunk, LogRecord};
use siriusu::severity::{ClassifierState, Severity};

fn pairs(records: &[LogRecord]) -> Vec<(Severity, String)> {
    records.iter().map(|r| (r.severity, r.message.clone())).collect()
}

#[test]
fn chunk_is_split_into_classified_lines() {
    let chunk = b"[t INFO] starting\n[t ERROR] boom\n  at frame 1\n  at frame 2\n[t WARN] careful\n";
    let (state, records) = process_chunk(ClassifierState::Info, chunk);
    assert_eq!(state, ClassifierState::Warn);
    assert_eq!(
        pairs(&records),
        vec![
            (Severity::Info, "starting".to_string()),
            (Severity::Error, "boom".to_string()),
            (Severity::Error, "  at frame 1".to_string()),
            (Severity::Error, "  at frame 2".to_string()),
            (Severity::Warn, "careful".to_string()),
        ]
    );
}

#[test]
fn blank_lines_yield_nothing_and_keep_the_state() {
    let (state, records) = process_chunk(ClassifierState::Error, b"\n   \n\t\r\n");
    assert_eq!(state, ClassifierState::Error);
    assert!(records.is_empty());
}

#[test]
fn empty_chunk_yields_nothing() {
    let (state, records) = process_chunk(ClassifierState::Warn, b"");
    assert_eq!(state, ClassifierState::Warn);
    assert!(records.is_empty());
}

#[test]
fn chunk_without_line_feed_is_one_line() {
    let (state, records) = process_chunk(ClassifierState::Info, b"x ERROR] partial");
    assert_eq!(state, ClassifierState::Error);
    assert_eq!(pairs(&records), vec![(Severity::Error, "partial".to_string())]);
}

#[test]
fn state_is_carried_into_the_next_chunk() {
    let (state, first) = process_chunk(ClassifierState::Info, b"x ERROR] boom\n");
    let (state, second) = process_chunk(state, b"  at frame 1\n");
    assert_eq!(state, ClassifierState::Error);
    assert_eq!(pairs(&first), vec![(Severity::Error, "boom".to_string())]);
    assert_eq!(pairs(&second), vec![(Severity::Error, "  at frame 1".to_string())]);
}

#[test]
fn line_that_straddles_chunks_is_seen_as_two_lines() {
    let (state, first) = process_chunk(ClassifierState::Info, b"x ERR");
    let (state, second) = process_chunk(state, b"OR] boom\n");
    assert_eq!(state, ClassifierState::Info);
    assert_eq!(pairs(&first), vec![(Severity::Info, "x ERR".to_string())]);
    assert_eq!(pairs(&second), vec![(Severity::Info, "OR] boom".to_string())]);
}

#[test]
fn chunk_that_is_not_utf8_is_dropped_whole() {
    let chunk = [b'a', b' ', b'E', b'R', b'R', b'O', b'R', b']', b' ', b'x', b'\n', 0xFF, b'\n'];
    let (state, records) = process_chunk(ClassifierState::Warn, &chunk);
    assert_eq!(state, ClassifierState::Warn);
    assert!(records.is_empty());
}

#[test]
fn chunk_cut_inside_a_character_is_dropped_whole() {
    let text = "x INFO] caf\u{e9}";
    let bytes = text.as_bytes();
    let cut = &bytes[..bytes.len() - 1];
    let (state, records) = process_chunk(ClassifierState::Error, cut);
    assert_eq!(state, ClassifierState::Error);
    assert!(records.is_empty());
}

#[test]
fn utf8_text_is_decoded_before_it_is_split() {
    let text = "pr\u{e9}fixe ERROR] d\u{e9}j\u{e0} vu\n\u{3000}\nsuite \u{1F600}\n";
    let (state, records) = process_chunk(ClassifierState::Info, text.as_bytes());
    assert_eq!(state, ClassifierState::Error);
    assert_eq!(
        pairs(&records),
        vec![
            (Severity::Error, "d\u{e9}j\u{e0} vu".to_string()),
            (Severity::Error, "suite \u{1F600}".to_string()),
        ]
    );
}

#[test]
fn carriage_returns_are_kept() {
    let (_, records) = process_chunk(ClassifierState::Info, b"x INFO] ready\r\n\r\n");
    assert_eq!(pairs(&records), vec![(Severity::Info, "ready\r".to_string())]);
}

#[test]
fn line_with_repeated_marker_keeps_the_state_for_the_next() {
    let (state, records) =
        process_chunk(ClassifierState::Info, b"x WARN] w\na ERROR] b ERROR] c\nnext\n");
    assert_eq!(state, ClassifierState::Warn);
    assert_eq!(
        pairs(&records),
        vec![
            (Severity::Warn, "w".to_string()),
            (Severity::Info, "a ERROR] b ERROR] c".to_string()),
            (Severity::Warn, "next".to_string()),
        ]
    );
}

#[test]
fn line_with_markers_of_two_severities_sets_the_state_for_the_next() {
    let (state, records) =
        process_chunk(ClassifierState::Info, b"a ERROR] b ERROR] c WARN] d\nnext\n");
    assert_eq!(state, ClassifierState::Error);
    assert_eq!(
        pairs(&records),
        vec![
            (Severity::Error, "b ERROR] c WARN] d".to_string()),
            (Severity::Error, "next".to_string()),
        ]
    );
}

#[test]
fn records_come_in_the_order_of_the_lines() {
    let (_, records) = process_chunk(ClassifierState::Info, b"1\n2\n\n3\n4");
    let messages: Vec<String> = records.iter().map(|r| r.message.clone()).collect();
    assert_eq!(messages, vec!["1", "2", "3", "4"]);
}

#[test]
fn feed_line_drops_a_blank_line() {
    let (state, record) = feed_line(ClassifierState::Error, " \t ");
    assert_eq!(state, ClassifierState::Error);
    assert!(record.is_none());
    let (state, record) = feed_line(ClassifierState::Error, "");
    assert_eq!(state, ClassifierState::Error);
    assert!(record.is_none());
}

#[test]
fn feed_line_classifies_a_line() {
    let (state, record) = feed_line(ClassifierState::Info, "x WARN] hm");
    assert_eq!(state, ClassifierState::Warn);
    let record = record.unwrap();
    assert_eq!(record.severity, Severity::Warn);
    assert_eq!(record.message, "hm");
}
