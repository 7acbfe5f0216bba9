use openflow::domain::ScreenContext;
use openflow::services::vocab::{extract_terms, merged_terms, parse_store, PersonalVocab};

fn screen(title: &str, preview: &str, visible: &str) -> ScreenContext {
    ScreenContext {
        app_name: "Slack".into(),
        window_title: title.into(),
        focused_role: "AXTextArea".into(),
        focused_value_preview: preview.into(),
        visible_text: visible.into(),
    }
}

fn strings(v: &[&str]) -> Vec<String> {
    v.iter().map(|s| s.to_string()).collect()
}

#[test]
fn extract_terms_keeps_rare_looking_tokens() {
    let c = screen(
        "OpenFlow Roadmap Q3",
        "",
        "Meeting with Johnykutty about Openflow v2 and @dana.",
    );
    assert_eq!(
        extract_terms(&c),
        strings(&["OpenFlow", "Roadmap", "Q3", "Meeting", "Johnykutty", "v2", "@dana"])
    );
}

#[test]
fn extract_terms_orders_by_frequency_then_first_sight() {
    let c = screen("Alpha Bravo", "Bravo", "Charlie Bravo Charlie");
    assert_eq!(extract_terms(&c), strings(&["Bravo", "Charlie", "Alpha"]));
}

#[test]
fn extract_terms_skips_common_and_short_words() {
    let c = screen("", "", "There Where Notes a I ok @x");
    assert_eq!(extract_terms(&c), strings(&["Notes"]));
}

#[test]
fn extract_terms_merges_case_insensitively() {
    let c = screen("", "", "Über über");
    assert_eq!(extract_terms(&c), strings(&["Über"]));
}

#[test]
fn extract_terms_keeps_non_latin_names() {
    let c = screen("", "", "Call ജോണി now");
    assert_eq!(extract_terms(&c), strings(&["Call", "ജോണി"]));
}

#[test]
fn extract_terms_trims_punctuation_but_keeps_handles() {
    let c = screen("", "", "(@team_lead) [Kubernetes] \"GPT4\"");
    assert_eq!(extract_terms(&c), strings(&["@team_lead", "Kubernetes", "GPT4"]));
}

#[test]
fn extract_terms_caps_at_thirty_two() {
    let text: Vec<String> = (1..=40).map(|i| format!("Term{i}")).collect();
    let c = screen("", "", &text.join(" "));
    let terms = extract_terms(&c);
    assert_eq!(terms.len(), 32);
    assert_eq!(terms[0], "Term1");
    assert_eq!(terms[31], "Term32");
}

#[test]
fn empty_context_has_no_terms() {
    assert!(extract_terms(&screen("", "", "")).is_empty());
}

#[test]
fn record_counts_case_insensitively_and_keeps_first_spelling() {
    let mut v = PersonalVocab::new();
    v.record(&strings(&["OpenFlow", "Roadmap"]));
    v.record(&strings(&["openflow"]));
    assert_eq!(v.top(10), strings(&["OpenFlow", "Roadmap"]));
    assert_eq!(v.top(1), strings(&["OpenFlow"]));
    assert_eq!(v.max_count(), 2);
}

#[test]
fn store_text_lists_counts_most_frequent_first() {
    let mut v = PersonalVocab::new();
    v.record(&strings(&["Roadmap", "OpenFlow"]));
    v.record(&strings(&["OpenFlow"]));
    assert_eq!(v.store_text(), "2\tOpenFlow\n1\tRoadmap\n");
}

#[test]
fn store_round_trip_keeps_entries() {
    let mut v = PersonalVocab::new();
    v.record(&strings(&["Kafka", "OpenFlow", "Kafka", "Zed"]));
    let text = v.store_text();
    let back = parse_store(&text);
    assert_eq!(back.top(10), v.top(10));
    assert_eq!(back.store_text(), text);
}

#[test]
fn parse_store_skips_malformed_lines() {
    let v = parse_store("x\tfoo\n3\t  Bar  \n\tnothing\n5\t\n7\tbar\nno tab here\n4\tZed\r\n");
    assert_eq!(v.top(10), strings(&["bar", "Zed"]));
    assert_eq!(v.store_text(), "7\tbar\n4\tZed\n");
}

#[test]
fn empty_store_is_empty() {
    assert!(parse_store("").top(5).is_empty());
    assert_eq!(PersonalVocab::new().store_text(), "");
    assert_eq!(PersonalVocab::new().max_count(), 0);
}

#[test]
fn merged_terms_puts_screen_terms_first() {
    let c = screen("OpenFlow Roadmap", "", "");
    let mut personal = PersonalVocab::new();
    for _ in 0..5 {
        personal.record(&strings(&["openflow"]));
    }
    personal.record(&strings(&["Kafka"]));
    assert_eq!(merged_terms(&c, &personal, 10), strings(&["OpenFlow", "Roadmap", "Kafka"]));
    assert_eq!(merged_terms(&c, &personal, 2), strings(&["OpenFlow", "Roadmap"]));
}

#[test]
fn merged_terms_with_zero_limit_is_empty() {
    let c = screen("OpenFlow Roadmap", "", "");
    let personal = PersonalVocab::new();
    assert!(merged_terms(&c, &personal, 0).is_empty());
    assert_eq!(merged_terms(&c, &personal, 1), strings(&["OpenFlow"]));
    assert!(merged_terms(&screen("", "", ""), &personal, 0).is_empty());
}

#[test]
fn extract_terms_keeps_mixed_case_names() {
    let c = screen("", "", "buy an iPhone or macOS today OK");
    assert_eq!(extract_terms(&c), strings(&["iPhone", "macOS"]));
}

#[test]
fn merged_terms_fill_with_new_personal_terms_up_to_the_limit() {
    let c = screen("OpenFlow", "", "");
    let mut personal = PersonalVocab::new();
    for _ in 0..5 {
        personal.record(&strings(&["openflow"]));
    }
    for _ in 0..3 {
        personal.record(&strings(&["Kafka"]));
    }
    personal.record(&strings(&["Zed", "Zed", "Helm"]));
    assert_eq!(merged_terms(&c, &personal, 3), strings(&["OpenFlow", "Kafka", "Zed"]));
    assert_eq!(merged_terms(&c, &personal, 4), strings(&["OpenFlow", "Kafka", "Zed", "Helm"]));
    assert_eq!(personal.top(2), strings(&["openflow", "Kafka"]));
}
