use openflow::domain::{AudioBuffer, ScreenContext, TranscriptDraft};
use openflow::services::refinement::{
    build_system_prompt, finish_refinement, needs_refinement, unrefined, DemoTranscriptRefiner,
    RefinementSettings, TranscriptRefiner,
};
use openflow::services::transcription::{
    build_transcription_prompt, check_audio, draft_from_response, endpoint_url, request_failed_message,
    truncate_to_byte_limit, DemoTranscriptionEngine, TranscriptionEngine, TranscriptionSettings,
};
use openflow::text::chars_of;

fn ctx(preview: &str) -> ScreenContext {
    ScreenContext {
        app_name: "Slack".into(),
        window_title: "General".into(),
        focused_role: "AXTextArea".into(),
        focused_value_preview: preview.into(),
        visible_text: String::new(),
    }
}

fn strings(v: &[&str]) -> Vec<String> {
    v.iter().map(|s| s.to_string()).collect()
}

fn audio(duration_ms: u64, bytes: usize) -> AudioBuffer {
    AudioBuffer {
        pcm_frames: 16,
        duration_ms,
        sample_rate_hz: 16000,
        channels: 1,
        wav_bytes: vec![0u8; bytes],
    }
}

#[test]
fn short_or_clean_drafts_skip_refinement() {
    assert!(!needs_refinement(""));
    assert!(!needs_refinement("   "));
    assert!(!needs_refinement("ok"));
    assert!(!needs_refinement("send it"));
    assert!(!needs_refinement("Hello there friend."));
    assert!(!needs_refinement("I know nothing now."));
}

#[test]
fn messy_drafts_are_refined() {
    assert!(needs_refinement("hello there friend"));
    assert!(needs_refinement("Hello there friend"));
    assert!(needs_refinement("Hello um there friend."));
    assert!(needs_refinement("Meet at 3, actually 4."));
    assert!(needs_refinement("Wait for me please."));
    assert!(needs_refinement("No problem at all."));
    assert!(needs_refinement("Buy milk, scratch that, eggs."));
}

#[test]
fn system_prompt_carries_the_context() {
    let p = build_system_prompt(&ctx("draft text"), &strings(&["OpenFlow", "Kafka"]));
    assert!(p.starts_with("You are a text correction tool, NOT a conversational assistant."));
    assert!(p.contains(
        "- Application: Slack\n- Focused element: AXTextArea\n- Nearby text: draft text\n- Names/terms on screen: OpenFlow, Kafka\n\nCRITICAL RULES"
    ));
    assert!(p.ends_with("11. If the text is already correct, return it exactly as-is."));
}

#[test]
fn system_prompt_omits_empty_lines() {
    let p = build_system_prompt(&ctx(""), &[]);
    assert!(p.contains("- Application: Slack\n- Focused element: AXTextArea\n\nCRITICAL RULES"));
    assert!(!p.contains("Nearby text"));
    assert!(!p.contains("Names/terms on screen"));
}

#[test]
fn refinement_result_is_trimmed_and_compared() {
    let f = finish_refinement("hello there", Some("  Hello there.  ".into()));
    assert_eq!(f.text, "Hello there.");
    assert!(f.was_refined);
    let same = finish_refinement("Hello there.", Some("Hello there.\n".into()));
    assert!(!same.was_refined);
    let none = finish_refinement("raw words", None);
    assert_eq!(none.text, "raw words");
    assert!(!none.was_refined);
}

#[test]
fn unrefined_keeps_the_draft() {
    let d = TranscriptDraft { raw_text: "ok".into(), confidence_hint_percent: 90 };
    let f = unrefined(&d);
    assert_eq!(f.text, "ok");
    assert!(!f.was_refined);
}

#[test]
fn demo_refiner_adds_a_period_in_action_item_lists() {
    let d = TranscriptDraft { raw_text: "ship it".into(), confidence_hint_percent: 92 };
    let f = DemoTranscriptRefiner.refine(&d, &ctx("Action items for launch"), &[]).unwrap();
    assert_eq!(f.text, "ship it.");
    assert!(f.was_refined);
    let g = DemoTranscriptRefiner.refine(&d, &ctx("other"), &[]).unwrap();
    assert_eq!(g.text, "ship it");
    assert!(!g.was_refined);
}

#[test]
fn transcription_prompt_packs_vocabulary() {
    let c = ctx("");
    assert_eq!(build_transcription_prompt(&c, &[]), "App: Slack. Window: General.");
    assert_eq!(
        build_transcription_prompt(&c, &strings(&["OpenFlow", "Kafka"])),
        "App: Slack. Window: General. Vocabulary: OpenFlow, Kafka."
    );
}

#[test]
fn transcription_prompt_drops_vocabulary_that_does_not_fit() {
    let c = ctx("");
    let huge = "x".repeat(900);
    assert_eq!(build_transcription_prompt(&c, &[huge.clone()]), "App: Slack. Window: General.");
    let p = build_transcription_prompt(&c, &[String::from("Kafka"), huge]);
    assert_eq!(p, "App: Slack. Window: General. Vocabulary: Kafka.");
}

#[test]
fn transcription_prompt_stays_within_800_bytes() {
    let mut c = ctx("");
    c.window_title = "é".repeat(500);
    let p = build_transcription_prompt(&c, &[]);
    assert!(p.len() <= 800);
    assert!(p.starts_with("App: Slack. Window: é"));
    let many: Vec<String> = (0..200).map(|i| format!("Term{i}")).collect();
    let q = build_transcription_prompt(&ctx(""), &many);
    assert!(q.len() <= 800);
    assert!(q.ends_with('.'));
}

#[test]
fn byte_limit_cuts_at_a_character_boundary() {
    let s: String = truncate_to_byte_limit(&chars_of("ééé"), 3).into_iter().collect();
    assert_eq!(s, "é");
    let t: String = truncate_to_byte_limit(&chars_of("abc"), 10).into_iter().collect();
    assert_eq!(t, "abc");
    let u: String = truncate_to_byte_limit(&chars_of("😀"), 3).into_iter().collect();
    assert_eq!(u, "");
    let h2: String = truncate_to_byte_limit(&chars_of("héllo"), 2).into_iter().collect();
    assert_eq!(h2, "h");
    let h3: String = truncate_to_byte_limit(&chars_of("héllo"), 3).into_iter().collect();
    assert_eq!(h3, "hé");
}

#[test]
fn transcription_responses() {
    assert!(check_audio(&audio(100, 0)).is_err());
    assert_eq!(check_audio(&audio(100, 0)), Err("captured audio buffer is empty".to_string()));
    assert_eq!(check_audio(&audio(100, 4)), Ok(()));
    let d = draft_from_response("  Hello world \n").unwrap();
    assert_eq!(d.raw_text, "Hello world");
    assert_eq!(d.confidence_hint_percent, 90);
    assert_eq!(draft_from_response(" \n").unwrap_err(), "transcription response was empty");
}

#[test]
fn demo_engine_biases_by_duration() {
    let c = ctx("");
    let short = DemoTranscriptionEngine.transcribe(&audio(900, 4), &c, &[]).unwrap();
    assert_eq!(
        short.raw_text,
        "Ship the latency fixes today [App: Slack\nWindow: General\nFocused role: AXTextArea\nFocused field preview: \nVisible screen]"
    );
    assert_eq!(short.confidence_hint_percent, 92);
    let long = DemoTranscriptionEngine.transcribe(&audio(1500, 4), &c, &[]).unwrap();
    assert!(long.raw_text.starts_with("Ship the latency fixes today and review the accessibility path ["));
}

#[test]
fn settings_need_a_key_and_default_the_rest() {
    assert_eq!(
        TranscriptionSettings::from_env_values(None, None, None, None).err(),
        Some("missing GROQ_API_KEY in the environment or .env file".to_string())
    );
    let t = TranscriptionSettings::from_env_values(Some("k".into()), None, Some("en".into()), None).unwrap();
    assert_eq!(t.model, "whisper-large-v3-turbo");
    assert_eq!(t.language, Some("en".to_string()));
    assert_eq!(t.transcriptions_url(), "https://api.groq.com/openai/v1/audio/transcriptions");
    let r = RefinementSettings::from_env_values(Some("k".into()), None, Some("http://h/v1//".into())).unwrap();
    assert_eq!(r.model, "openai/gpt-oss-20b");
    assert_eq!(r.completions_url(), "http://h/v1/chat/completions");
    assert!(RefinementSettings::from_env_values(None, Some("m".into()), None).is_err());
}

#[test]
fn endpoints_drop_trailing_slashes() {
    assert_eq!(endpoint_url("https://a/b///", "/c"), "https://a/b/c");
    assert_eq!(endpoint_url("https://a/b", "/c"), "https://a/b/c");
}

#[test]
fn failed_requests_name_the_status_and_body() {
    assert_eq!(
        request_failed_message("transcription", "401 Unauthorized", "{\"error\":\"bad key\"}"),
        "transcription request failed with 401 Unauthorized: {\"error\":\"bad key\"}"
    );
}
