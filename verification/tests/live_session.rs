use openflow::domain::{FinalTranscript, FocusTarget, HotkeyEvent, ScreenContext, TranscriptDraft};
use openflow::services::vocab::PersonalVocab;
use openflow::session::{
    fallback_focus_target, fallback_screen_context, CaptureContext, CaptureInfo, Effect, LiveSession,
    Phase, SessionEvent,
};

fn describe(e: &Effect) -> String {
    match e {
        Effect::WaitHotkey => "wait".into(),
        Effect::CaptureFocus => "capture-focus".into(),
        Effect::BeginCapture => "begin".into(),
        Effect::PlayStartSound => "start-sound".into(),
        Effect::PlayStopSound => "stop-sound".into(),
        Effect::EndCapture => "end".into(),
        Effect::PersistVocab => "persist".into(),
        Effect::Transcribe => "transcribe".into(),
        Effect::ReadFrontmost => "frontmost".into(),
        Effect::Reactivate(p) => format!("reactivate {p}"),
        Effect::PasteDraft => "paste".into(),
        Effect::Refine => "refine".into(),
        Effect::ReplaceDraft { prev_char_count } => format!("replace {prev_char_count}"),
        Effect::SendStatus(s) => format!("status {s:?}"),
        Effect::Sleep(ms) => format!("sleep {ms}"),
        Effect::Log(m) => format!("log {m}"),
        Effect::LogError(m) => format!("error {m}"),
        Effect::LogCapture(i) => format!("captured {} {} {}", i.duration_ms, i.sample_rate_hz, i.channels),
        Effect::Fail(m) => format!("fail {m}"),
    }
}

fn run(s: &mut LiveSession, e: SessionEvent) -> Vec<String> {
    assert!(s.accepts(&e));
    s.step(e).iter().map(describe).collect()
}

fn capture() -> CaptureContext {
    CaptureContext {
        target: FocusTarget { app_name: "Slack".into(), element_role: "AXTextArea".into() },
        context: ScreenContext {
            app_name: "Slack".into(),
            window_title: "OpenFlow Roadmap".into(),
            focused_role: "AXTextArea".into(),
            focused_value_preview: String::new(),
            visible_text: String::new(),
        },
        pid: 42,
    }
}

fn info() -> CaptureInfo {
    CaptureInfo { duration_ms: 1500, sample_rate_hz: 16000, channels: 1 }
}

fn draft(text: &str) -> TranscriptDraft {
    TranscriptDraft { raw_text: text.into(), confidence_hint_percent: 90 }
}

/// Drives a session from idle to the point where the draft is pasted.
fn to_pasting(s: &mut LiveSession) {
    run(s, SessionEvent::Hotkey(HotkeyEvent::Pressed));
    run(s, SessionEvent::FocusCaptured(capture()));
    run(s, SessionEvent::CaptureBegun(Ok(())));
    run(s, SessionEvent::Hotkey(HotkeyEvent::Released));
    run(s, SessionEvent::CaptureEnded(Ok(info())));
    run(s, SessionEvent::Transcribed(Ok(draft("héllo there friend"))));
    run(s, SessionEvent::Frontmost(42));
    assert_eq!(s.phase(), Phase::Pasting);
}

#[test]
fn start_greets_and_waits() {
    let s = LiveSession::new(PersonalVocab::new());
    let v: Vec<String> = s.start("f18").iter().map(describe).collect();
    assert_eq!(
        v,
        vec![
            "log OpenFlow is running.",
            "log Hold f18 to record, release to transcribe and paste.",
            "log Press Ctrl+C to stop.",
            "wait",
        ]
    );
}

#[test]
fn full_dictation_with_refinement() {
    let mut s = LiveSession::new(PersonalVocab::new());
    assert_eq!(run(&mut s, SessionEvent::Hotkey(HotkeyEvent::Pressed)), vec!["capture-focus"]);
    assert_eq!(s.phase(), Phase::CapturingFocus);
    assert_eq!(
        run(&mut s, SessionEvent::FocusCaptured(capture())),
        vec![
            "log [context] app=\"Slack\" window=\"OpenFlow Roadmap\" role=\"AXTextArea\"",
            "begin",
        ]
    );
    assert_eq!(
        run(&mut s, SessionEvent::CaptureBegun(Ok(()))),
        vec!["start-sound", "status Recording", "log [recording] started", "wait"]
    );
    assert_eq!(s.phase(), Phase::Recording);
    assert_eq!(run(&mut s, SessionEvent::Hotkey(HotkeyEvent::Released)), vec!["stop-sound", "end"]);
    assert_eq!(
        run(&mut s, SessionEvent::CaptureEnded(Ok(info()))),
        vec![
            "captured 1500 16000 1",
            "persist",
            "status Processing",
            "log [transcription] sending audio\u{2026}",
            "transcribe",
        ]
    );
    assert_eq!(s.vocabulary(), &vec!["OpenFlow".to_string(), "Roadmap".to_string()]);
    assert_eq!(s.personal().top(5), vec!["OpenFlow".to_string(), "Roadmap".to_string()]);
    assert_eq!(
        run(&mut s, SessionEvent::Transcribed(Ok(draft("héllo there friend")))),
        vec!["log [transcription] héllo there friend", "frontmost"]
    );
    assert_eq!(run(&mut s, SessionEvent::Frontmost(42)), vec!["paste"]);
    assert_eq!(
        run(&mut s, SessionEvent::Pasted(Ok(()))),
        vec!["log [paste] draft done", "log [refinement] refining\u{2026}", "refine"]
    );
    let refined = FinalTranscript { text: "Hello there, friend.".into(), was_refined: true };
    assert_eq!(
        run(&mut s, SessionEvent::Refined(Ok(refined))),
        vec!["log [refinement] Hello there, friend.", "replace 18"]
    );
    assert_eq!(s.refined_text(), "Hello there, friend.");
    assert_eq!(
        run(&mut s, SessionEvent::Replaced(Ok(()))),
        vec!["log [paste] refined", "status Success", "sleep 1200", "status Idle", "wait"]
    );
    assert_eq!(s.phase(), Phase::Idle);
    assert!(s.capture().is_none());
    assert!(s.draft().is_none());
}

#[test]
fn stray_key_edges_are_ignored() {
    let mut s = LiveSession::new(PersonalVocab::new());
    assert_eq!(run(&mut s, SessionEvent::Hotkey(HotkeyEvent::Released)), vec!["wait"]);
    assert_eq!(s.phase(), Phase::Idle);
    run(&mut s, SessionEvent::Hotkey(HotkeyEvent::Pressed));
    run(&mut s, SessionEvent::FocusCaptured(capture()));
    run(&mut s, SessionEvent::CaptureBegun(Ok(())));
    assert_eq!(run(&mut s, SessionEvent::Hotkey(HotkeyEvent::Pressed)), vec!["wait"]);
    assert_eq!(s.phase(), Phase::Recording);
}

#[test]
fn unexpected_events_are_refused() {
    let s = LiveSession::new(PersonalVocab::new());
    assert!(!s.accepts(&SessionEvent::Pasted(Ok(()))));
    assert!(!s.accepts(&SessionEvent::Transcribed(Ok(draft("x")))));
    assert!(s.accepts(&SessionEvent::HotkeyStreamClosed));
}

#[test]
fn focus_drift_reactivates_the_dictation_target() {
    let mut s = LiveSession::new(PersonalVocab::new());
    run(&mut s, SessionEvent::Hotkey(HotkeyEvent::Pressed));
    run(&mut s, SessionEvent::FocusCaptured(capture()));
    run(&mut s, SessionEvent::CaptureBegun(Ok(())));
    run(&mut s, SessionEvent::Hotkey(HotkeyEvent::Released));
    run(&mut s, SessionEvent::CaptureEnded(Ok(info())));
    run(&mut s, SessionEvent::Transcribed(Ok(draft("note"))));
    assert_eq!(
        run(&mut s, SessionEvent::Frontmost(7)),
        vec!["log [paste] focus drifted \u{2014} reactivating original app", "reactivate 42"]
    );
    assert_eq!(
        run(&mut s, SessionEvent::Reactivated(Err("denied".into()))),
        vec!["error [paste] reactivation failed: denied", "paste"]
    );
    assert_eq!(s.phase(), Phase::Pasting);
}

#[test]
fn unknown_pid_never_reactivates() {
    let mut s = LiveSession::new(PersonalVocab::new());
    run(&mut s, SessionEvent::Hotkey(HotkeyEvent::Pressed));
    let mut c = capture();
    c.pid = -1;
    run(&mut s, SessionEvent::FocusCaptured(c));
    run(&mut s, SessionEvent::CaptureBegun(Ok(())));
    run(&mut s, SessionEvent::Hotkey(HotkeyEvent::Released));
    run(&mut s, SessionEvent::CaptureEnded(Ok(info())));
    run(&mut s, SessionEvent::Transcribed(Ok(draft("note"))));
    assert_eq!(run(&mut s, SessionEvent::Frontmost(7)), vec!["paste"]);
}

#[test]
fn capture_stop_failure_shows_the_error_then_idles() {
    let mut s = LiveSession::new(PersonalVocab::new());
    run(&mut s, SessionEvent::Hotkey(HotkeyEvent::Pressed));
    run(&mut s, SessionEvent::FocusCaptured(capture()));
    run(&mut s, SessionEvent::CaptureBegun(Ok(())));
    run(&mut s, SessionEvent::Hotkey(HotkeyEvent::Released));
    assert_eq!(
        run(&mut s, SessionEvent::CaptureEnded(Err("mic gone".into()))),
        vec![
            "error [recording] stop failed: mic gone",
            "status Error(\"mic gone\")",
            "sleep 2000",
            "status Idle",
            "wait",
        ]
    );
    assert_eq!(s.phase(), Phase::Idle);
}

#[test]
fn transcription_failure_returns_to_idle() {
    let mut s = LiveSession::new(PersonalVocab::new());
    run(&mut s, SessionEvent::Hotkey(HotkeyEvent::Pressed));
    run(&mut s, SessionEvent::FocusCaptured(capture()));
    run(&mut s, SessionEvent::CaptureBegun(Ok(())));
    run(&mut s, SessionEvent::Hotkey(HotkeyEvent::Released));
    run(&mut s, SessionEvent::CaptureEnded(Ok(info())));
    assert_eq!(
        run(&mut s, SessionEvent::Transcribed(Err("timeout".into()))),
        vec![
            "error [transcription] failed: timeout",
            "status Error(\"transcription failed\")",
            "sleep 2000",
            "status Idle",
            "wait",
        ]
    );
    assert_eq!(s.phase(), Phase::Idle);
}

#[test]
fn paste_failure_returns_to_idle() {
    let mut s = LiveSession::new(PersonalVocab::new());
    to_pasting(&mut s);
    assert_eq!(
        run(&mut s, SessionEvent::Pasted(Err("no access".into()))),
        vec![
            "error [paste] failed: no access",
            "status Error(\"paste failed\")",
            "sleep 2000",
            "status Idle",
            "wait",
        ]
    );
    assert_eq!(s.phase(), Phase::Idle);
}

#[test]
fn refinement_failure_keeps_the_draft() {
    let mut s = LiveSession::new(PersonalVocab::new());
    to_pasting(&mut s);
    run(&mut s, SessionEvent::Pasted(Ok(())));
    assert_eq!(
        run(&mut s, SessionEvent::Refined(Err("rate limited".into()))),
        vec![
            "error [refinement] failed, keeping draft: rate limited",
            "status Success",
            "sleep 1200",
            "status Idle",
            "wait",
        ]
    );
    assert_eq!(s.phase(), Phase::Idle);
}

#[test]
fn unchanged_refinement_skips_the_replacement() {
    let mut s = LiveSession::new(PersonalVocab::new());
    to_pasting(&mut s);
    run(&mut s, SessionEvent::Pasted(Ok(())));
    let same = FinalTranscript { text: "héllo there friend".into(), was_refined: false };
    assert_eq!(
        run(&mut s, SessionEvent::Refined(Ok(same))),
        vec!["log [refinement] no changes needed", "status Success", "sleep 1200", "status Idle", "wait"]
    );
}

#[test]
fn replace_failure_still_ends_in_success() {
    let mut s = LiveSession::new(PersonalVocab::new());
    to_pasting(&mut s);
    run(&mut s, SessionEvent::Pasted(Ok(())));
    run(&mut s, SessionEvent::Refined(Ok(FinalTranscript { text: "Hi.".into(), was_refined: true })));
    assert_eq!(
        run(&mut s, SessionEvent::Replaced(Err("gone".into()))),
        vec!["error [refinement] replace failed: gone", "status Success", "sleep 1200", "status Idle", "wait"]
    );
}

#[test]
fn fatal_errors_stop_the_session() {
    let mut s = LiveSession::new(PersonalVocab::new());
    assert_eq!(run(&mut s, SessionEvent::HotkeyStreamClosed), vec!["fail hotkey stream disconnected"]);
    assert_eq!(s.phase(), Phase::Stopped);

    let mut s = LiveSession::new(PersonalVocab::new());
    run(&mut s, SessionEvent::Hotkey(HotkeyEvent::Pressed));
    run(&mut s, SessionEvent::FocusCaptured(capture()));
    assert_eq!(run(&mut s, SessionEvent::CaptureBegun(Err("no microphone".into()))), vec!["fail no microphone"]);
    assert_eq!(s.phase(), Phase::Stopped);
}

#[test]
fn empty_vocabulary_is_not_persisted() {
    let mut s = LiveSession::new(PersonalVocab::new());
    run(&mut s, SessionEvent::Hotkey(HotkeyEvent::Pressed));
    let mut c = capture();
    c.context.window_title = "notes".into();
    run(&mut s, SessionEvent::FocusCaptured(c));
    run(&mut s, SessionEvent::CaptureBegun(Ok(())));
    run(&mut s, SessionEvent::Hotkey(HotkeyEvent::Released));
    let v = run(&mut s, SessionEvent::CaptureEnded(Ok(info())));
    assert!(!v.contains(&"persist".to_string()));
    assert!(s.vocabulary().is_empty());
}

#[test]
fn fallbacks_describe_an_unknown_focus() {
    let t = fallback_focus_target();
    assert_eq!(t.app_name, "CurrentApp");
    assert_eq!(t.element_role, "Unknown");
    let c = fallback_screen_context(&t);
    assert_eq!(c.app_name, "CurrentApp");
    assert_eq!(c.focused_role, "Unknown");
    assert_eq!(c.window_title, "");
    assert_eq!(c.visible_text, "");
    assert_eq!(c.focused_value_preview, "");
}
