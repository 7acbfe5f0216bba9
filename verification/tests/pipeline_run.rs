use openflow::config::AppConfig;
use openflow::domain::{AudioBuffer, FinalTranscript, FocusTarget, LatencyReport, ScreenContext, TranscriptDraft};
use openflow::pipeline::{Pipeline, RunAction, RunEvent, RunStage};
use openflow::services::audio::{AudioCapture, DemoAudioCapture};
use openflow::services::focus::{DemoFocusResolver, FocusResolver};
use openflow::services::paste::TextPaster;
use openflow::services::refinement::{DemoTranscriptRefiner, TranscriptRefiner};
use openflow::services::transcription::{DemoTranscriptionEngine, TranscriptionEngine};

fn audio() -> AudioBuffer {
    AudioBuffer { pcm_frames: 16, duration_ms: 900, sample_rate_hz: 16000, channels: 1, wav_bytes: vec![1, 2, 3] }
}

fn target() -> FocusTarget {
    FocusTarget { app_name: "Notes".into(), element_role: "AXTextArea".into() }
}

fn context() -> ScreenContext {
    ScreenContext {
        app_name: "Notes".into(),
        window_title: "Draft".into(),
        focused_role: "AXTextArea".into(),
        focused_value_preview: String::new(),
        visible_text: String::new(),
    }
}

fn feed(run: &mut Pipeline, event: RunEvent) -> RunAction {
    assert!(run.accepts(&event));
    run.step(event)
}

fn run_until_refine(run: &mut Pipeline) {
    assert!(matches!(feed(run, RunEvent::CaptureBegun(Ok(()))), RunAction::EndCapture));
    assert!(matches!(feed(run, RunEvent::CaptureEnded(Ok(audio()))), RunAction::ReadFocusTarget));
    assert!(matches!(feed(run, RunEvent::FocusRead(Ok(target()))), RunAction::ReadScreenContext));
    assert!(matches!(feed(run, RunEvent::ContextRead(Ok(context()))), RunAction::Transcribe));
    let draft = TranscriptDraft { raw_text: "héllo wörld".into(), confidence_hint_percent: 90 };
    assert!(matches!(feed(run, RunEvent::Transcribed(Ok(draft))), RunAction::PasteDraft));
    assert!(matches!(feed(run, RunEvent::Pasted(Ok(()))), RunAction::Refine));
}

fn latency() -> LatencyReport {
    LatencyReport { capture_ms: 900, transcription_ms: 40, refinement_ms: 20, paste_ms: 8 }
}

#[test]
fn run_replaces_the_draft_when_refinement_changed_it() {
    let mut run = Pipeline::new(AppConfig::default());
    assert_eq!(run.stage(), RunStage::BeginningCapture);
    run_until_refine(&mut run);
    let refined = FinalTranscript { text: "Hello world.".into(), was_refined: true };
    match feed(&mut run, RunEvent::Refined(Ok(refined))) {
        RunAction::ReplacePaste(n) => assert_eq!(n, 11),
        _ => panic!("expected a replacement"),
    }
    assert!(matches!(feed(&mut run, RunEvent::Replaced(Ok(()))), RunAction::Finish));
    assert_eq!(run.stage(), RunStage::Finished);
    let out = run.into_outcome(latency()).expect("finished run has an outcome");
    assert_eq!(out.final_transcript.text, "Hello world.");
    assert_eq!(out.draft.raw_text, "héllo wörld");
    assert_eq!(out.focus_target.app_name, "Notes");
    assert_eq!(out.audio.wav_bytes, vec![1, 2, 3]);
    assert_eq!(out.latency.transcription_ms, 40);
    assert_eq!(out.config_snapshot.hold_key, "f18");
}

#[test]
fn run_finishes_without_replacing_unchanged_text() {
    let mut run = Pipeline::new(AppConfig::default());
    run_until_refine(&mut run);
    let same = FinalTranscript { text: "héllo wörld".into(), was_refined: false };
    assert!(matches!(feed(&mut run, RunEvent::Refined(Ok(same))), RunAction::Finish));
    assert!(!run.accepts(&RunEvent::Replaced(Ok(()))));
    assert!(run.into_outcome(latency()).is_some());
}

#[test]
fn first_error_ends_the_run() {
    let mut run = Pipeline::new(AppConfig::default());
    assert!(!run.accepts(&RunEvent::Pasted(Ok(()))));
    assert!(matches!(feed(&mut run, RunEvent::CaptureBegun(Ok(()))), RunAction::EndCapture));
    assert!(matches!(feed(&mut run, RunEvent::CaptureEnded(Ok(audio()))), RunAction::ReadFocusTarget));
    match feed(&mut run, RunEvent::FocusRead(Err("no focused element".into()))) {
        RunAction::Fail(m) => assert_eq!(m, "no focused element"),
        _ => panic!("expected the run to fail"),
    }
    assert_eq!(run.stage(), RunStage::Failed);
    assert!(!run.accepts(&RunEvent::ContextRead(Ok(context()))));
    assert!(run.into_outcome(latency()).is_none());
}

struct RecordingPaster {
    log: std::cell::RefCell<Vec<String>>,
}

impl TextPaster for RecordingPaster {
    fn paste_text(&self, _target: &FocusTarget, text: &str) -> Result<(), String> {
        self.log.borrow_mut().push(format!("paste {text}"));
        Ok(())
    }

    fn replace_recent_paste(&self, _target: &FocusTarget, prev_char_count: usize, text: &str) -> Result<(), String> {
        self.log.borrow_mut().push(format!("replace {prev_char_count} {text}"));
        Ok(())
    }
}

#[test]
fn demo_services_drive_a_run_to_the_end() {
    let mut audio = DemoAudioCapture::new();
    let focus = DemoFocusResolver;
    let paster = RecordingPaster { log: std::cell::RefCell::new(Vec::new()) };
    let refiner = DemoTranscriptRefiner;
    let transcriber = DemoTranscriptionEngine;
    let mut run = Pipeline::new(AppConfig::default());
    let mut action = RunAction::BeginCapture;
    let mut steps = 0;
    loop {
        steps += 1;
        assert!(steps < 20);
        let event = match action {
            RunAction::BeginCapture => RunEvent::CaptureBegun(audio.begin_capture()),
            RunAction::EndCapture => RunEvent::CaptureEnded(audio.end_capture()),
            RunAction::ReadFocusTarget => RunEvent::FocusRead(focus.current_focus_target()),
            RunAction::ReadScreenContext => RunEvent::ContextRead(focus.current_screen_context()),
            RunAction::Transcribe => {
                let (Some(buffer), Some(context)) = (run.audio(), run.screen_context()) else {
                    panic!("missing audio or context");
                };
                RunEvent::Transcribed(transcriber.transcribe(buffer, context, &[]))
            }
            RunAction::PasteDraft => {
                let (Some(target), Some(draft)) = (run.focus_target(), run.draft()) else {
                    panic!("missing draft");
                };
                RunEvent::Pasted(paster.paste_text(target, &draft.raw_text))
            }
            RunAction::Refine => {
                let (Some(draft), Some(context)) = (run.draft(), run.screen_context()) else {
                    panic!("missing draft");
                };
                RunEvent::Refined(refiner.refine(draft, context, &[]))
            }
            RunAction::ReplacePaste(prev_char_count) => {
                let (Some(target), Some(refined)) = (run.focus_target(), run.final_transcript()) else {
                    panic!("missing refined text");
                };
                RunEvent::Replaced(paster.replace_recent_paste(target, prev_char_count, &refined.text))
            }
            RunAction::Finish => break,
            RunAction::Fail(message) => panic!("demo run failed: {message}"),
        };
        assert!(run.accepts(&event));
        action = run.step(event);
    }
    let out = run.into_outcome(latency()).expect("finished");
    let log = paster.log.borrow();
    assert_eq!(log[0], format!("paste {}", out.draft.raw_text));
    if out.final_transcript.text != out.draft.raw_text {
        assert_eq!(
            log[1],
            format!("replace {} {}", out.draft.raw_text.chars().count(), out.final_transcript.text)
        );
    } else {
        assert_eq!(log.len(), 1);
    }
}
