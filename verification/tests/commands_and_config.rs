use openflow::app::{
    check_api_key, help_lines, parse_command, permission_report, permissions_complete, require_text, AssistantApp,
    Command,
};
use openflow::config::{config_dir, config_file_path, join_path, AppConfig, DEFAULT_CONFIG_TEXT};
use openflow::launchd::{
    bootout_outcome, bootstrap_outcome, gui_domain, parse_uid, plist_content, plist_path,
    service_target, xml_escape,
};
use openflow::pipeline::replacement_count;
use openflow::domain::{FinalTranscript, TranscriptDraft};
use openflow::platform::permission_snapshot;

fn args(v: &[&str]) -> Vec<String> {
    v.iter().map(|s| s.to_string()).collect()
}

#[test]
fn no_command_means_live_with_the_configured_key() {
    match parse_command(&args(&["openflow"]), "right_command") {
        Ok(Command::Live { trigger }) => assert_eq!(trigger, "right_command"),
        _ => panic!("expected live"),
    }
    match parse_command(&args(&["openflow", "live", "f18"]), "right_command") {
        Ok(Command::Live { trigger }) => assert_eq!(trigger, "f18"),
        _ => panic!("expected live"),
    }
}

#[test]
fn simple_commands() {
    assert!(matches!(parse_command(&args(&["o", "setup"]), "k"), Ok(Command::Setup)));
    assert!(matches!(parse_command(&args(&["o", "permissions"]), "k"), Ok(Command::Permissions)));
    assert!(matches!(parse_command(&args(&["o", "focus"]), "k"), Ok(Command::Focus)));
    assert!(matches!(parse_command(&args(&["o", "ax-debug"]), "k"), Ok(Command::AxDebug)));
    assert!(matches!(parse_command(&args(&["o", "demo"]), "k"), Ok(Command::Demo)));
}

#[test]
fn paste_joins_the_remaining_words() {
    match parse_command(&args(&["o", "paste", "hello", "big", "world"]), "k") {
        Ok(Command::Paste { text }) => assert_eq!(text, "hello big world"),
        _ => panic!("expected paste"),
    }
    match parse_command(&args(&["o", "paste"]), "k") {
        Ok(Command::Paste { text }) => {
            assert_eq!(text, "");
            assert_eq!(require_text(text, "usage: openflow paste <text>"), Err("usage: openflow paste <text>".to_string()));
        }
        _ => panic!("expected paste"),
    }
    match parse_command(&args(&["o", "paste-after", "1.5", "hi", "there"]), "k") {
        Ok(Command::PasteAfter { delay, text }) => {
            assert_eq!(delay, Some("1.5".to_string()));
            assert_eq!(text, "hi there");
        }
        _ => panic!("expected paste-after"),
    }
}

#[test]
fn delayed_commands_keep_the_delay_text() {
    match parse_command(&args(&["o", "focus-after"]), "k") {
        Ok(Command::FocusAfter { delay }) => assert_eq!(delay, None),
        _ => panic!("expected focus-after"),
    }
    match parse_command(&args(&["o", "ax-debug-after", "2"]), "k") {
        Ok(Command::AxDebugAfter { delay }) => assert_eq!(delay, Some("2".to_string())),
        _ => panic!("expected ax-debug-after"),
    }
}

#[test]
fn monitor_and_help() {
    match parse_command(&args(&["o", "monitor-hotkey"]), "f18") {
        Ok(Command::MonitorHotkey { trigger }) => assert_eq!(trigger, "f18"),
        _ => panic!("expected monitor-hotkey"),
    }
    match parse_command(&args(&["/usr/bin/openflow", "help"]), "k") {
        Ok(Command::Help { bin_name }) => assert_eq!(bin_name, "/usr/bin/openflow"),
        _ => panic!("expected help"),
    }
}

#[test]
fn unknown_command_points_to_help() {
    assert_eq!(
        parse_command(&args(&["o", "dance"]), "k").err(),
        Some("unknown command: dance. Run `openflow help` for usage.".to_string())
    );
}

#[test]
fn setup_checks() {
    assert_eq!(require_text("x".into(), "usage"), Ok("x".to_string()));
    assert!(permissions_complete(&permission_snapshot(true, true, true)));
    assert!(!permissions_complete(&permission_snapshot(true, false, true)));
    assert_eq!(check_api_key(None, Ok(())), Err("missing GROQ_API_KEY".to_string()));
    assert_eq!(check_api_key(Some(""), Ok(())), Err("GROQ_API_KEY is empty".to_string()));
    assert_eq!(check_api_key(Some("gsk_1"), Ok(())), Ok(()));
    assert_eq!(
        check_api_key(Some("gsk_bad"), Err("the API answered 401 Unauthorized".into())),
        Err("GROQ_API_KEY was rejected: the API answered 401 Unauthorized".to_string())
    );
}

#[test]
fn default_config() {
    let c = AppConfig::default();
    assert_eq!(c.hold_key, "f18");
    assert_eq!(c.transcription_latency_budget_ms, 450);
    assert_eq!(c.refinement_latency_budget_ms, 120);
    assert_eq!(c.max_screen_context_chars, 2000);
    assert!(c.transcription_model.is_none() && c.refinement_model.is_none() && c.language.is_none());
    let app = AssistantApp::new(c);
    assert_eq!(app.config_ref().hold_key, "f18");
    assert!(DEFAULT_CONFIG_TEXT.contains("hold_key = \"f18\""));
}

#[test]
fn env_overrides_respect_the_environment() {
    let mut c = AppConfig::default();
    c.transcription_model = Some("whisper-x".into());
    c.refinement_model = Some("llama".into());
    c.language = Some(String::new());
    let all: Vec<(String, String)> =
        c.env_overrides(false, false, false).into_iter().map(|o| (o.name, o.value)).collect();
    assert_eq!(
        all,
        vec![
            ("GROQ_TRANSCRIPTION_MODEL".to_string(), "whisper-x".to_string()),
            ("GROQ_REFINEMENT_MODEL".to_string(), "llama".to_string()),
        ]
    );
    c.language = Some("en".into());
    let some: Vec<(String, String)> =
        c.env_overrides(true, false, false).into_iter().map(|o| (o.name, o.value)).collect();
    assert_eq!(
        some,
        vec![
            ("GROQ_REFINEMENT_MODEL".to_string(), "llama".to_string()),
            ("GROQ_TRANSCRIPTION_LANGUAGE".to_string(), "en".to_string()),
        ]
    );
    assert!(c.env_overrides(true, true, true).is_empty());
}

#[test]
fn config_paths() {
    assert_eq!(config_file_path("/Users/ann"), "/Users/ann/.config/openflow/config.toml");
    assert_eq!(config_dir("/Users/ann/"), "/Users/ann/.config/openflow");
    assert_eq!(join_path("", "x"), "x");
}

#[test]
fn xml_escaping() {
    assert_eq!(xml_escape("a&b<c>d\"e'f"), "a&amp;b&lt;c&gt;d&quot;e&apos;f");
    assert_eq!(xml_escape("/Applications/OpenFlow.app"), "/Applications/OpenFlow.app");
}

#[test]
fn plist_runs_the_binary_live() {
    let p = plist_content("/opt/a&b/openflow");
    assert!(p.starts_with("<?xml version=\"1.0\" encoding=\"UTF-8\"?>"));
    assert!(p.contains("<key>Label</key>\n    <string>com.openflow.dictation</string>"));
    assert!(p.contains("<string>/opt/a&amp;b/openflow</string>\n        <string>live</string>"));
    assert!(p.ends_with("</dict>\n</plist>"));
    assert_eq!(
        plist_path("/Users/ann"),
        "/Users/ann/Library/LaunchAgents/com.openflow.dictation.plist"
    );
}

#[test]
fn launchctl_targets_and_outcomes() {
    assert_eq!(parse_uid(" 501\n"), "501");
    assert_eq!(gui_domain("501"), "gui/501");
    assert_eq!(service_target("501"), "gui/501/com.openflow.dictation");
    assert_eq!(bootstrap_outcome(true, Some(0), ""), Ok(()));
    assert_eq!(bootstrap_outcome(false, Some(17), "already"), Ok(()));
    assert_eq!(bootstrap_outcome(false, Some(5), "I/O error"), Err("launchctl bootstrap: I/O error".to_string()));
    assert_eq!(bootout_outcome(false, Some(3), "no such"), Ok(()));
    assert_eq!(bootout_outcome(false, None, "killed"), Err("launchctl bootout: killed".to_string()));
}

#[test]
fn replacement_only_when_refinement_changed_the_text() {
    let d = TranscriptDraft { raw_text: "héllo".into(), confidence_hint_percent: 92 };
    let same = FinalTranscript { text: "héllo".into(), was_refined: false };
    let changed = FinalTranscript { text: "Héllo.".into(), was_refined: true };
    assert_eq!(replacement_count(&d, &same), None);
    assert_eq!(replacement_count(&d, &changed), Some(5));
}

#[test]
fn help_names_the_binary_and_the_config_file() {
    let lines = help_lines("openflow", Some("/Users/ann/.config/openflow/config.toml"));
    assert_eq!(lines[0], "OpenFlow – open-source voice-to-text for macOS");
    assert_eq!(lines[3], "  openflow                          Start with menubar icon (default)");
    assert!(lines.contains(&"Config file: /Users/ann/.config/openflow/config.toml".to_string()));
    assert_eq!(lines.last().unwrap(), "  2. openflow live");
    let without = help_lines("of", None);
    assert_eq!(without.len(), lines.len() - 1);
    assert!(!without.iter().any(|l| l.starts_with("Config file")));
}

#[test]
fn permission_report_shows_before_and_after() {
    let lines = permission_report(&permission_snapshot(false, true, false), &permission_snapshot(true, true, true));
    assert_eq!(
        lines,
        vec![
            "Permission status before prompt:",
            "  accessibility=false",
            "  input_monitoring=true",
            "  synthetic_events=false",
            "",
            "Permission status after prompt attempt:",
            "  accessibility=true",
            "  input_monitoring=true",
            "  synthetic_events=true",
            "",
            "If any value is false, open System Settings > Privacy & Security and grant access, then rerun.",
        ]
    );
}
