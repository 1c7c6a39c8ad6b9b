use siriusu::classifier::{classify, classify_chars, marker_chars};
use siriusu::severity::{ClassifierState, Severity};
use siriusu::text::{blank, is_whitespace, matches_at, scan, to_chars, Occurrence};

fn classified(state: ClassifierState, line: &str) -> (ClassifierState, Severity, String) {
    classify(state, line)
}

#[test]
fn error_line_sets_state_and_message() {
    let (state, severity, message) =
        classified(ClassifierState::Info, "2024-01-01 10:00:00 ERROR] disk full");
    assert_eq!(state, ClassifierState::Error);
    assert_eq!(severity, Severity::Error);
    assert_eq!(message, "disk full");
}

#[test]
fn continuation_line_keeps_error_state() {
    let (state, severity, message) = classified(ClassifierState::Error, "  at module X");
    assert_eq!(state, ClassifierState::Error);
    assert_eq!(severity, Severity::Error);
    assert_eq!(message, "  at module X");
}

#[test]
fn info_line_after_error_resets_state() {
    let (state, severity, message) = classified(ClassifierState::Error, "... INFO] ready");
    assert_eq!(state, ClassifierState::Info);
    assert_eq!(severity, Severity::Info);
    assert_eq!(message, "ready");
}

#[test]
fn three_lines_in_a_row_carry_the_state() {
    let (s1, v1, m1) = classified(ClassifierState::Info, "2024-01-01 10:00:00 ERROR] disk full");
    let (s2, v2, m2) = classified(s1, "  at module X");
    let (s3, v3, m3) = classified(s2, "... INFO] ready");
    assert_eq!((s1, v1, m1.as_str()), (ClassifierState::Error, Severity::Error, "disk full"));
    assert_eq!((s2, v2, m2.as_str()), (ClassifierState::Error, Severity::Error, "  at module X"));
    assert_eq!((s3, v3, m3.as_str()), (ClassifierState::Info, Severity::Info, "ready"));
}

#[test]
fn warn_line_sets_warn() {
    let (state, severity, message) = classified(ClassifierState::Info, "[x WARN] low memory");
    assert_eq!(state, ClassifierState::Warn);
    assert_eq!(severity, Severity::Warn);
    assert_eq!(message, "low memory");
}

#[test]
fn continuation_line_under_warn_and_info() {
    assert_eq!(
        classified(ClassifierState::Warn, "more"),
        (ClassifierState::Warn, Severity::Warn, "more".to_string())
    );
    assert_eq!(
        classified(ClassifierState::Info, "more"),
        (ClassifierState::Info, Severity::Info, "more".to_string())
    );
}

#[test]
fn error_outranks_warn() {
    let (state, severity, message) =
        classified(ClassifierState::Info, "a WARN] b ERROR] c WARN] d");
    assert_eq!(state, ClassifierState::Error);
    assert_eq!(severity, Severity::Error);
    assert_eq!(message, "c WARN] d");
}

#[test]
fn error_outranks_warn_whatever_the_order() {
    let (state, severity, message) = classified(ClassifierState::Warn, "t ERROR] x WARN] y");
    assert_eq!(state, ClassifierState::Error);
    assert_eq!(severity, Severity::Error);
    assert_eq!(message, "x WARN] y");
}

#[test]
fn warn_outranks_info() {
    let (state, severity, message) = classified(ClassifierState::Info, "t INFO] x WARN] y");
    assert_eq!(state, ClassifierState::Warn);
    assert_eq!(severity, Severity::Warn);
    assert_eq!(message, "y");
}

#[test]
fn repeated_error_marker_beside_a_warn_marker_is_error() {
    let line = "a ERROR] b ERROR] c WARN] d";
    let (state, severity, message) = classified(ClassifierState::Warn, line);
    assert_eq!(state, ClassifierState::Error);
    assert_eq!(severity, Severity::Error);
    assert_eq!(message, "b ERROR] c WARN] d");
}

#[test]
fn warn_marker_before_repeated_error_markers_is_error() {
    let line = "a WARN] b ERROR] c ERROR] d";
    let (state, severity, message) = classified(ClassifierState::Info, line);
    assert_eq!(state, ClassifierState::Error);
    assert_eq!(severity, Severity::Error);
    assert_eq!(message, "c ERROR] d");
}

#[test]
fn repeated_error_and_repeated_warn_markers_are_error() {
    let line = "w WARN] x ERROR] y WARN] z ERROR]";
    let (state, severity, message) = classified(ClassifierState::Info, line);
    assert_eq!(state, ClassifierState::Error);
    assert_eq!(severity, Severity::Error);
    assert_eq!(message, "y WARN] z ERROR]");
}

#[test]
fn repeated_error_marker_beside_an_info_marker_is_error() {
    let line = "a ERROR] b INFO] c ERROR]";
    let (state, severity, message) = classified(ClassifierState::Info, line);
    assert_eq!(state, ClassifierState::Error);
    assert_eq!(severity, Severity::Error);
    assert_eq!(message, "b INFO] c ERROR]");
}

#[test]
fn repeated_warn_marker_beside_an_info_marker_is_warn() {
    let line = "a INFO] b WARN] c WARN] d";
    let (state, severity, message) = classified(ClassifierState::Error, line);
    assert_eq!(state, ClassifierState::Warn);
    assert_eq!(severity, Severity::Warn);
    assert_eq!(message, "c WARN] d");
}

#[test]
fn one_warn_marker_beside_repeated_info_markers_is_warn() {
    let line = "a INFO] b INFO] c WARN] d";
    let (state, severity, message) = classified(ClassifierState::Info, line);
    assert_eq!(state, ClassifierState::Warn);
    assert_eq!(severity, Severity::Warn);
    assert_eq!(message, "d");
}

#[test]
fn repeated_error_marker_alone_is_reported_whole_at_info() {
    let line = "a ERROR] b ERROR] c";
    let (state, severity, message) = classified(ClassifierState::Warn, line);
    assert_eq!(state, ClassifierState::Warn);
    assert_eq!(severity, Severity::Info);
    assert_eq!(message, line);
}

#[test]
fn repeated_warn_marker_is_reported_whole_at_info() {
    let line = "a WARN] b WARN] c";
    let (state, severity, message) = classified(ClassifierState::Error, line);
    assert_eq!(state, ClassifierState::Error);
    assert_eq!(severity, Severity::Info);
    assert_eq!(message, line);
}

#[test]
fn repeated_info_marker_is_reported_whole_at_info() {
    let line = "a INFO] b INFO] c";
    let (state, severity, message) = classified(ClassifierState::Error, line);
    assert_eq!(state, ClassifierState::Error);
    assert_eq!(severity, Severity::Info);
    assert_eq!(message, line);
}

#[test]
fn one_error_with_repeated_warn_is_error() {
    let (state, severity, message) =
        classified(ClassifierState::Info, "a WARN] b WARN] c ERROR] d");
    assert_eq!(state, ClassifierState::Error);
    assert_eq!(severity, Severity::Error);
    assert_eq!(message, "d");
}

#[test]
fn only_one_separating_space_is_removed() {
    let (_, _, message) = classified(ClassifierState::Info, "t INFO]   indented");
    assert_eq!(message, "  indented");
}

#[test]
fn message_without_separator_is_kept() {
    let (_, severity, message) = classified(ClassifierState::Info, "t ERROR]tight");
    assert_eq!(severity, Severity::Error);
    assert_eq!(message, "tight");
}

#[test]
fn marker_at_the_end_gives_empty_message() {
    let (state, severity, message) = classified(ClassifierState::Info, "t WARN]");
    assert_eq!(state, ClassifierState::Warn);
    assert_eq!(severity, Severity::Warn);
    assert_eq!(message, "");
}

#[test]
fn marker_needs_its_leading_space() {
    let line = "ERROR] no space before";
    let (state, severity, message) = classified(ClassifierState::Warn, line);
    assert_eq!(state, ClassifierState::Warn);
    assert_eq!(severity, Severity::Warn);
    assert_eq!(message, line);
}

#[test]
fn marker_is_case_sensitive() {
    let line = "t error] lower case";
    let (state, severity, message) = classified(ClassifierState::Info, line);
    assert_eq!(state, ClassifierState::Info);
    assert_eq!(severity, Severity::Info);
    assert_eq!(message, line);
}

#[test]
fn non_ascii_text_is_counted_by_characters() {
    let (state, severity, message) = classified(ClassifierState::Info, "héllo wörld ERROR] déjà vu");
    assert_eq!(state, ClassifierState::Error);
    assert_eq!(severity, Severity::Error);
    assert_eq!(message, "déjà vu");
}

#[test]
fn carriage_return_stays_in_the_message() {
    let (_, _, message) = classified(ClassifierState::Info, "t INFO] ready\r");
    assert_eq!(message, "ready\r");
}

#[test]
fn classify_chars_returns_the_start_of_the_message() {
    let line: Vec<char> = "ab WARN] cd".chars().collect();
    let (state, severity, start) = classify_chars(ClassifierState::Info, &line);
    assert_eq!(state, ClassifierState::Warn);
    assert_eq!(severity, Severity::Warn);
    assert_eq!(start, 9);
    let whole: Vec<char> = "abcd".chars().collect();
    assert_eq!(classify_chars(ClassifierState::Error, &whole).2, 0);
}

#[test]
fn marker_chars_are_the_three_markers() {
    assert_eq!(marker_chars(Severity::Error).iter().collect::<String>(), " ERROR]");
    assert_eq!(marker_chars(Severity::Warn).iter().collect::<String>(), " WARN]");
    assert_eq!(marker_chars(Severity::Info).iter().collect::<String>(), " INFO]");
}

#[test]
fn state_severity_agrees_with_state() {
    assert_eq!(ClassifierState::Error.severity(), Severity::Error);
    assert_eq!(ClassifierState::Warn.severity(), Severity::Warn);
    assert_eq!(ClassifierState::Info.severity(), Severity::Info);
}

#[test]
fn scan_counts_up_to_two() {
    let marker: Vec<char> = "ab".chars().collect();
    let none: Vec<char> = "xyz".chars().collect();
    let once: Vec<char> = "xxabx".chars().collect();
    let twice: Vec<char> = "abab".chars().collect();
    let short: Vec<char> = "a".chars().collect();
    assert!(matches!(scan(&none, &marker), Occurrence::Absent));
    assert!(matches!(scan(&once, &marker), Occurrence::Once(2)));
    assert!(matches!(scan(&twice, &marker), Occurrence::Repeated(0)));
    assert!(matches!(scan(&short, &marker), Occurrence::Absent));
    assert!(matches!(scan(&marker, &marker), Occurrence::Once(0)));
}

#[test]
fn scan_of_a_repeated_marker_gives_the_first_place() {
    let marker: Vec<char> = "ab".chars().collect();
    let line: Vec<char> = "xabxxabab".chars().collect();
    assert!(matches!(scan(&line, &marker), Occurrence::Repeated(1)));
}

#[test]
fn scan_finds_a_marker_at_the_very_end() {
    let marker: Vec<char> = "ab".chars().collect();
    let line: Vec<char> = "xxxab".chars().collect();
    assert!(matches!(scan(&line, &marker), Occurrence::Once(3)));
}

#[test]
fn matches_at_compares_in_place() {
    let line: Vec<char> = "hello".chars().collect();
    let marker: Vec<char> = "ll".chars().collect();
    assert!(matches_at(&line, &marker, 2));
    assert!(!matches_at(&line, &marker, 1));
    assert!(!matches_at(&line, &marker, 3));
}

#[test]
fn to_chars_keeps_every_character() {
    assert_eq!(to_chars("aé€😀"), vec!['a', 'é', '€', '😀']);
    assert_eq!(to_chars(""), Vec::<char>::new());
}

#[test]
fn whitespace_is_what_std_calls_whitespace() {
    let mut code: u32 = 0;
    while code <= 0x3100 {
        if let Some(c) = char::from_u32(code) {
            assert_eq!(is_whitespace(c), c.is_whitespace(), "U+{:04X}", code);
        }
        code += 1;
    }
    assert!(!is_whitespace('\u{FEFF}'));
    assert!(!is_whitespace('\u{200B}'));
}

#[test]
fn blank_lines_hold_only_whitespace() {
    let empty: Vec<char> = Vec::new();
    let spaces: Vec<char> = " \t\r\u{A0}\u{3000}".chars().collect();
    let text: Vec<char> = "  x ".chars().collect();
    assert!(blank(&empty));
    assert!(blank(&spaces));
    assert!(!blank(&text));
}

#[test]
fn initial_state_is_info() {
    assert_eq!(ClassifierState::initial(), ClassifierState::Info);
    let (state, severity, message) = classified(ClassifierState::initial(), "no marker yet");
    assert_eq!(state, ClassifierState::Info);
    assert_eq!(severity, Severity::Info);
    assert_eq!(message, "no marker yet");
}
