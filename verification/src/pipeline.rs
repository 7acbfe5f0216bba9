//! One demo dictation, start to finish: capture, read the focus and the
//! screen, transcribe, paste the draft, refine, and replace the draft when
//! refinement changed it. The run is a state machine: the caller performs
//! each action and hands back its outcome; the first error ends the run.
use vstd::prelude::*;

use crate::config::AppConfig;
use crate::domain::{AudioBuffer, FinalTranscript, FocusTarget, LatencyReport, ScreenContext, TranscriptDraft};
use crate::text::{chars_eq, chars_of};

verus! {

/// When refinement changed the text, the number of characters of the
/// pasted draft to replace; otherwise nothing to replace.
pub fn replacement_count(draft: &TranscriptDraft, refined: &FinalTranscript) -> (r: Option<usize>)
    ensures
        r == replacement_spec(*draft, *refined),
{
    let old_chars = chars_of(draft.raw_text.as_str());
    let new_chars = chars_of(refined.text.as_str());
    if chars_eq(&old_chars, &new_chars) {
        None
    } else {
        Some(old_chars.len())
    }
}

pub open spec fn replacement_spec(draft: TranscriptDraft, refined: FinalTranscript) -> Option<usize> {
    if refined.text@ != draft.raw_text@ {
        Some(draft.raw_text@.len() as usize)
    } else {
        None::<usize>
    }
}

/// The step whose outcome a run waits for, or how it ended.
#[derive(Debug, Clone, Copy, PartialEq, Eq, Structural)]
pub enum RunStage {
    BeginningCapture,
    EndingCapture,
    ReadingFocus,
    ReadingContext,
    Transcribing,
    Pasting,
    Refining,
    Replacing,
    Finished,
    Failed,
}

/// The outcome of the action that the run asked for.
pub enum RunEvent {
    CaptureBegun(Result<(), String>),
    CaptureEnded(Result<AudioBuffer, String>),
    FocusRead(Result<FocusTarget, String>),
    ContextRead(Result<ScreenContext, String>),
    Transcribed(Result<TranscriptDraft, String>),
    Pasted(Result<(), String>),
    Refined(Result<FinalTranscript, String>),
    Replaced(Result<(), String>),
}

/// What the caller does next. `Transcribe` works on the run's audio and
/// screen context, `PasteDraft` and `ReplacePaste` on its focus target and
/// its draft or final text, `Refine` on its draft and screen context.
pub enum RunAction {
    BeginCapture,
    EndCapture,
    ReadFocusTarget,
    ReadScreenContext,
    Transcribe,
    PasteDraft,
    Refine,
    /// Replace the given number of just-pasted characters with the final text.
    ReplacePaste(usize),
    Finish,
    Fail(String),
}

/// A single dictation run and what it has gathered so far.
pub struct Pipeline {
    config: AppConfig,
    stage: RunStage,
    audio: Option<AudioBuffer>,
    focus_target: Option<FocusTarget>,
    screen_context: Option<ScreenContext>,
    draft: Option<TranscriptDraft>,
    final_transcript: Option<FinalTranscript>,
}

/// A run as the contracts see it: the same fields.
pub struct RunView {
    pub config: AppConfig,
    pub stage: RunStage,
    pub audio: Option<AudioBuffer>,
    pub focus_target: Option<FocusTarget>,
    pub screen_context: Option<ScreenContext>,
    pub draft: Option<TranscriptDraft>,
    pub final_transcript: Option<FinalTranscript>,
}

impl View for Pipeline {
    type V = RunView;

    closed spec fn view(&self) -> RunView {
        RunView {
            config: self.config,
            stage: self.stage,
            audio: self.audio,
            focus_target: self.focus_target,
            screen_context: self.screen_context,
            draft: self.draft,
            final_transcript: self.final_transcript,
        }
    }
}

/// Everything one finished run produced.
pub struct PipelineOutcome {
    pub audio: AudioBuffer,
    pub focus_target: FocusTarget,
    pub screen_context: ScreenContext,
    pub draft: TranscriptDraft,
    pub final_transcript: FinalTranscript,
    pub latency: LatencyReport,
    pub config_snapshot: AppConfig,
}

/// Whether the run waits for this kind of outcome.
pub open spec fn run_expects(stage: RunStage, e: RunEvent) -> bool {
    match e {
        RunEvent::CaptureBegun(_) => stage == RunStage::BeginningCapture,
        RunEvent::CaptureEnded(_) => stage == RunStage::EndingCapture,
        RunEvent::FocusRead(_) => stage == RunStage::ReadingFocus,
        RunEvent::ContextRead(_) => stage == RunStage::ReadingContext,
        RunEvent::Transcribed(_) => stage == RunStage::Transcribing,
        RunEvent::Pasted(_) => stage == RunStage::Pasting,
        RunEvent::Refined(_) => stage == RunStage::Refining,
        RunEvent::Replaced(_) => stage == RunStage::Replacing,
    }
}

/// Each value is held from the step that produced it on.
pub open spec fn run_wf(p: RunView) -> bool {
    let s = p.stage;
    let after_capture = !(s == RunStage::BeginningCapture || s == RunStage::EndingCapture);
    let after_focus = after_capture && s != RunStage::ReadingFocus;
    let after_context = after_focus && s != RunStage::ReadingContext;
    let after_transcript = after_context && s != RunStage::Transcribing;
    let after_refine = after_transcript && s != RunStage::Pasting && s != RunStage::Refining;
    &&& (after_capture && s != RunStage::Failed) ==> p.audio.is_some()
    &&& (after_focus && s != RunStage::Failed) ==> p.focus_target.is_some()
    &&& (after_context && s != RunStage::Failed) ==> p.screen_context.is_some()
    &&& (after_transcript && s != RunStage::Failed) ==> p.draft.is_some()
    &&& (after_refine && s != RunStage::Failed) ==> p.final_transcript.is_some()
}

pub open spec fn with_stage(p: RunView, s: RunStage) -> RunView {
    RunView { stage: s, ..p }
}

/// The run after an outcome, and the next action: on success the values
/// gathered are kept and the next step in order is asked for; the first
/// error ends the run with that error.
pub open spec fn run_transition(p: RunView, e: RunEvent) -> (RunView, RunAction) {
    match e {
        RunEvent::CaptureBegun(Ok(_)) => (with_stage(p, RunStage::EndingCapture), RunAction::EndCapture),
        RunEvent::CaptureEnded(Ok(a)) => (
            RunView { stage: RunStage::ReadingFocus, audio: Some(a), ..p },
            RunAction::ReadFocusTarget,
        ),
        RunEvent::FocusRead(Ok(t)) => (
            RunView { stage: RunStage::ReadingContext, focus_target: Some(t), ..p },
            RunAction::ReadScreenContext,
        ),
        RunEvent::ContextRead(Ok(c)) => (
            RunView { stage: RunStage::Transcribing, screen_context: Some(c), ..p },
            RunAction::Transcribe,
        ),
        RunEvent::Transcribed(Ok(d)) => (
            RunView { stage: RunStage::Pasting, draft: Some(d), ..p },
            RunAction::PasteDraft,
        ),
        RunEvent::Pasted(Ok(_)) => (with_stage(p, RunStage::Refining), RunAction::Refine),
        RunEvent::Refined(Ok(f)) => match replacement_spec(p.draft.unwrap(), f) {
            Some(n) => (
                RunView { stage: RunStage::Replacing, final_transcript: Some(f), ..p },
                RunAction::ReplacePaste(n),
            ),
            None => (
                RunView { stage: RunStage::Finished, final_transcript: Some(f), ..p },
                RunAction::Finish,
            ),
        },
        RunEvent::Replaced(Ok(_)) => (with_stage(p, RunStage::Finished), RunAction::Finish),
        RunEvent::CaptureBegun(Err(m)) => (with_stage(p, RunStage::Failed), RunAction::Fail(m)),
        RunEvent::CaptureEnded(Err(m)) => (with_stage(p, RunStage::Failed), RunAction::Fail(m)),
        RunEvent::FocusRead(Err(m)) => (with_stage(p, RunStage::Failed), RunAction::Fail(m)),
        RunEvent::ContextRead(Err(m)) => (with_stage(p, RunStage::Failed), RunAction::Fail(m)),
        RunEvent::Transcribed(Err(m)) => (with_stage(p, RunStage::Failed), RunAction::Fail(m)),
        RunEvent::Pasted(Err(m)) => (with_stage(p, RunStage::Failed), RunAction::Fail(m)),
        RunEvent::Refined(Err(m)) => (with_stage(p, RunStage::Failed), RunAction::Fail(m)),
        RunEvent::Replaced(Err(m)) => (with_stage(p, RunStage::Failed), RunAction::Fail(m)),
    }
}

impl Pipeline {
    /// Each value is held from the step that produced it on.
    #[verifier::type_invariant]
    spec fn gathered_in_order(self) -> bool {
        run_wf(self@)
    }

    /// The step the run waits for, or how it ended.
    pub fn stage(&self) -> (s: RunStage)
        ensures
            s == self@.stage,
    {
        self.stage
    }

    /// The captured audio, once captured.
    pub fn audio(&self) -> (r: Option<&AudioBuffer>)
        ensures
            match r {
                Some(a) => self@.audio == Some(*a),
                None => self@.audio.is_none(),
            },
    {
        self.audio.as_ref()
    }

    /// The element that receives the paste, once read.
    pub fn focus_target(&self) -> (r: Option<&FocusTarget>)
        ensures
            match r {
                Some(t) => self@.focus_target == Some(*t),
                None => self@.focus_target.is_none(),
            },
    {
        self.focus_target.as_ref()
    }

    /// The screen context, once read.
    pub fn screen_context(&self) -> (r: Option<&ScreenContext>)
        ensures
            match r {
                Some(c) => self@.screen_context == Some(*c),
                None => self@.screen_context.is_none(),
            },
    {
        self.screen_context.as_ref()
    }

    /// The pasted draft, once transcribed.
    pub fn draft(&self) -> (r: Option<&TranscriptDraft>)
        ensures
            match r {
                Some(d) => self@.draft == Some(*d),
                None => self@.draft.is_none(),
            },
    {
        self.draft.as_ref()
    }

    /// The refined text, once refined.
    pub fn final_transcript(&self) -> (r: Option<&FinalTranscript>)
        ensures
            match r {
                Some(f) => self@.final_transcript == Some(*f),
                None => self@.final_transcript.is_none(),
            },
    {
        self.final_transcript.as_ref()
    }

    /// A run that has not started; its first action is to begin capturing.
    pub fn new(config: AppConfig) -> (p: Pipeline)
        ensures
            p@.config == config,
            p@.stage == RunStage::BeginningCapture,
            p@.audio.is_none(),
            p@.focus_target.is_none(),
            p@.screen_context.is_none(),
            p@.draft.is_none(),
            p@.final_transcript.is_none(),
            run_wf(p@),
    {
        Pipeline {
            config,
            stage: RunStage::BeginningCapture,
            audio: None,
            focus_target: None,
            screen_context: None,
            draft: None,
            final_transcript: None,
        }
    }

    /// Whether the run waits for this outcome.
    pub fn accepts(&self, e: &RunEvent) -> (b: bool)
        ensures
            b == run_expects(self@.stage, *e),
    {
        let s = self.stage;
        match e {
            RunEvent::CaptureBegun(_) => s == RunStage::BeginningCapture,
            RunEvent::CaptureEnded(_) => s == RunStage::EndingCapture,
            RunEvent::FocusRead(_) => s == RunStage::ReadingFocus,
            RunEvent::ContextRead(_) => s == RunStage::ReadingContext,
            RunEvent::Transcribed(_) => s == RunStage::Transcribing,
            RunEvent::Pasted(_) => s == RunStage::Pasting,
            RunEvent::Refined(_) => s == RunStage::Refining,
            RunEvent::Replaced(_) => s == RunStage::Replacing,
        }
    }

    /// Takes the outcome of the last action and answers with the next one.
    pub fn step(&mut self, e: RunEvent) -> (a: RunAction)
        requires
            run_expects(old(self)@.stage, e),
        ensures
            (final(self)@, a) == run_transition(old(self)@, e),
            run_wf(old(self)@),
            run_wf(final(self)@),
    {
        proof {
            use_type_invariant(&*self);
        }
        match e {
            RunEvent::CaptureBegun(Ok(_)) => {
                self.stage = RunStage::EndingCapture;
                RunAction::EndCapture
            },
            RunEvent::CaptureEnded(Ok(a)) => {
                self.audio = Some(a);
                self.stage = RunStage::ReadingFocus;
                RunAction::ReadFocusTarget
            },
            RunEvent::FocusRead(Ok(t)) => {
                self.focus_target = Some(t);
                self.stage = RunStage::ReadingContext;
                RunAction::ReadScreenContext
            },
            RunEvent::ContextRead(Ok(c)) => {
                self.screen_context = Some(c);
                self.stage = RunStage::Transcribing;
                RunAction::Transcribe
            },
            RunEvent::Transcribed(Ok(d)) => {
                self.draft = Some(d);
                self.stage = RunStage::Pasting;
                RunAction::PasteDraft
            },
            RunEvent::Pasted(Ok(_)) => {
                self.stage = RunStage::Refining;
                RunAction::Refine
            },
            RunEvent::Refined(Ok(f)) => {
                let n = match &self.draft {
                    Some(d) => replacement_count(d, &f),
                    None => None,
                };
                self.final_transcript = Some(f);
                match n {
                    Some(k) => {
                        self.stage = RunStage::Replacing;
                        RunAction::ReplacePaste(k)
                    },
                    None => {
                        self.stage = RunStage::Finished;
                        RunAction::Finish
                    },
                }
            },
            RunEvent::Replaced(Ok(_)) => {
                self.stage = RunStage::Finished;
                RunAction::Finish
            },
            RunEvent::CaptureBegun(Err(m)) | RunEvent::CaptureEnded(Err(m)) | RunEvent::FocusRead(Err(m))
            | RunEvent::ContextRead(Err(m)) | RunEvent::Transcribed(Err(m)) | RunEvent::Pasted(Err(m))
            | RunEvent::Refined(Err(m)) | RunEvent::Replaced(Err(m)) => {
                self.stage = RunStage::Failed;
                RunAction::Fail(m)
            },
        }
    }

    /// What a finished run produced, with the latencies the caller measured;
    /// none unless the run finished.
    pub fn into_outcome(self, latency: LatencyReport) -> (o: Option<PipelineOutcome>)
        ensures
            match o {
                Some(out) => {
                    &&& self@.stage == RunStage::Finished
                    &&& self@.audio == Some(out.audio)
                    &&& self@.focus_target == Some(out.focus_target)
                    &&& self@.screen_context == Some(out.screen_context)
                    &&& self@.draft == Some(out.draft)
                    &&& self@.final_transcript == Some(out.final_transcript)
                    &&& out.latency == latency
                    &&& out.config_snapshot == self@.config
                },
                None => self@.stage != RunStage::Finished,
            },
    {
        proof {
            use_type_invariant(&self);
        }
        if self.stage != RunStage::Finished {
            return None;
        }
        match (self.audio, self.focus_target, self.screen_context, self.draft, self.final_transcript) {
            (Some(audio), Some(focus_target), Some(screen_context), Some(draft), Some(final_transcript)) => Some(
                PipelineOutcome {
                    audio,
                    focus_target,
                    screen_context,
                    draft,
                    final_transcript,
                    latency,
                    config_snapshot: self.config,
                },
            ),
            _ => None,
        }
    }
}

} // verus!
