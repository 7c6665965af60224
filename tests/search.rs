use smartdata_browser::search::{contains, segment, MatchSpan};

fn spans(s: &[(&str, bool)]) -> Vec<MatchSpan> {
    s.iter()
        .map(|(t, m)| MatchSpan { text: t.to_string(), is_match: *m })
        .collect()
}

fn joined(s: &[MatchSpan]) -> String {
    s.iter().map(|m| m.text.as_str()).collect()
}

#[test]
fn segment_coalesces_unmatched_characters() {
    let r = segment("abcabc", "b");
    assert_eq!(
        r,
        spans(&[("a", false), ("b", true), ("ca", false), ("b", true), ("c", false)])
    );
    assert_eq!(joined(&r), "abcabc");
}

#[test]
fn segment_with_empty_pattern() {
    assert_eq!(segment("hello", ""), spans(&[("hello", false)]));
}

#[test]
fn segment_without_occurrence() {
    assert_eq!(segment("hello", "z"), spans(&[("hello", false)]));
}

#[test]
fn segment_of_empty_text() {
    assert_eq!(segment("", "a"), spans(&[("", false)]));
    assert_eq!(segment("", ""), spans(&[("", false)]));
}

#[test]
fn segment_non_overlapping_occurrences() {
    assert_eq!(segment("aaa", "aa"), spans(&[("aa", true), ("a", false)]));
    assert_eq!(segment("abab", "ab"), spans(&[("ab", true), ("ab", true)]));
}

#[test]
fn segment_is_case_sensitive() {
    assert_eq!(segment("AirQuality", "air"), spans(&[("AirQuality", false)]));
    assert_eq!(
        segment("AirQuality", "Qual"),
        spans(&[("Air", false), ("Qual", true), ("ity", false)])
    );
}

#[test]
fn segment_non_ascii() {
    let r = segment("Straße-Maß", "ß");
    assert_eq!(
        r,
        spans(&[("Stra", false), ("ß", true), ("e-Ma", false), ("ß", true)])
    );
    assert_eq!(joined(&r), "Straße-Maß");
}

#[test]
fn contains_cases() {
    assert!(contains("hello", ""));
    assert!(!contains("hello", "z"));
    assert!(contains("hello", "llo"));
    assert!(contains("hello", "hello"));
    assert!(!contains("hello", "hello!"));
    assert!(contains("", ""));
    assert!(!contains("", "a"));
}
