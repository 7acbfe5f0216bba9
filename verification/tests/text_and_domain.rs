use openflow::domain::{LatencyReport, ScreenContext};
use openflow::text::{
    chars_of, decimal_chars, parse_usize, split_whitespace, string_from_chars, trim_whitespace,
};

fn s(v: &[char]) -> String {
    v.iter().collect()
}

fn context() -> ScreenContext {
    ScreenContext {
        app_name: "Notes".into(),
        window_title: "Meeting prep".into(),
        focused_role: "AXTextArea".into(),
        focused_value_preview: "Action items".into(),
        visible_text: "Launch plan".into(),
    }
}

#[test]
fn trim_whitespace_drops_both_ends() {
    assert_eq!(s(&trim_whitespace(&chars_of("  \t hello world \n"))), "hello world");
    assert_eq!(s(&trim_whitespace(&chars_of("   "))), "");
    assert_eq!(s(&trim_whitespace(&chars_of("\u{a0}x\u{3000}"))), "x");
}

#[test]
fn split_whitespace_skips_runs() {
    let words: Vec<String> = split_whitespace(&chars_of("  one  two\tthree \n"))
        .iter()
        .map(|w| s(w))
        .collect();
    assert_eq!(words, vec!["one", "two", "three"]);
    assert!(split_whitespace(&chars_of(" \t ")).is_empty());
}

#[test]
fn decimal_and_parse_agree() {
    assert_eq!(s(&decimal_chars(0)), "0");
    assert_eq!(s(&decimal_chars(1234567)), "1234567");
    assert_eq!(parse_usize(&chars_of("42")), Some(42));
    assert_eq!(parse_usize(&chars_of("+7")), Some(7));
    assert_eq!(parse_usize(&chars_of("")), None);
    assert_eq!(parse_usize(&chars_of("+")), None);
    assert_eq!(parse_usize(&chars_of("4x")), None);
    assert_eq!(parse_usize(&chars_of("-1")), None);
    assert_eq!(parse_usize(&chars_of("99999999999999999999999")), None);
}

#[test]
fn string_round_trip() {
    assert_eq!(string_from_chars(&chars_of("dictée ✓")), "dictée ✓");
}

#[test]
fn prompt_fragment_labels_every_field() {
    let c = context();
    assert_eq!(
        c.prompt_fragment(1000),
        "App: Notes\nWindow: Meeting prep\nFocused role: AXTextArea\nFocused field preview: Action items\nVisible screen text: Launch plan"
    );
}

#[test]
fn prompt_fragment_cuts_at_the_limit() {
    let c = context();
    assert_eq!(c.prompt_fragment(10), "App: Notes");
    assert_eq!(c.prompt_fragment(0), "");
}

#[test]
fn latency_summary_lists_each_stage() {
    let r = LatencyReport { capture_ms: 900, transcription_ms: 12, refinement_ms: 3, paste_ms: 8 };
    assert_eq!(r.summary(), "capture=900ms transcription=12ms refinement=3ms paste=8ms");
}
