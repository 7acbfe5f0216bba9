//! Live dictation as a state machine: the program reports what happened
//! (a key edge, the result of a request) and the session answers with what
//! to do next. The program performs the effects in order; the last effect of
//! each answer is a request whose result is the next event.
use vstd::prelude::*;

use crate::domain::{FinalTranscript, FocusTarget, HotkeyEvent, ScreenContext, TranscriptDraft};
use crate::services::vocab::{
    count_terms, merged_terms, merged_terms_spec, string_views, PersonalVocab, TermEntry,
};
use crate::text::{chars_of, push_str, string_from_chars};
use crate::tray::TrayStatus;

verus! {

/// How many vocabulary terms one dictation sends.
pub const VOCABULARY_LIMIT: usize = 32;

/// Where the user was when the key went down.
pub struct CaptureContext {
    pub target: FocusTarget,
    pub context: ScreenContext,
    /// The frontmost application's process id, or -1 when unknown.
    pub pid: i32,
}

/// What the capture reports about the recorded audio.
#[derive(Debug, Clone, Copy)]
pub struct CaptureInfo {
    pub duration_ms: u64,
    pub sample_rate_hz: u32,
    pub channels: u16,
}

/// Where the session is in a dictation.
#[derive(Debug, Clone, Copy, PartialEq, Eq, Structural)]
pub enum Phase {
    /// Waiting for the key to go down.
    Idle,
    /// Reading the focused element.
    CapturingFocus,
    /// Starting the microphone.
    StartingCapture,
    /// Waiting for the key to come up.
    Recording,
    /// Stopping the microphone.
    Stopping,
    Transcribing,
    /// Comparing the frontmost application with the one at key down.
    CheckingFocus,
    /// Bringing the application that was dictated into back to the front.
    Reactivating,
    /// Pasting the draft.
    Pasting,
    Refining,
    /// Replacing the pasted draft with the refined text.
    Replacing,
    /// A fatal error ended the session.
    Stopped,
}

/// What happened, as the program reports it.
pub enum SessionEvent {
    Hotkey(HotkeyEvent),
    HotkeyStreamClosed,
    FocusCaptured(CaptureContext),
    CaptureBegun(Result<(), String>),
    CaptureEnded(Result<CaptureInfo, String>),
    Transcribed(Result<TranscriptDraft, String>),
    Frontmost(i32),
    Reactivated(Result<(), String>),
    Pasted(Result<(), String>),
    Refined(Result<FinalTranscript, String>),
    Replaced(Result<(), String>),
}

/// What the program is to do.
pub enum Effect {
    /// Request: wait for the next key edge.
    WaitHotkey,
    /// Request: read the frontmost process and the focused element.
    CaptureFocus,
    /// Request: start the microphone.
    BeginCapture,
    PlayStartSound,
    PlayStopSound,
    /// Request: stop the microphone and keep the audio.
    EndCapture,
    /// Write the personal vocabulary store.
    PersistVocab,
    /// Request: transcribe the kept audio with the session's context and
    /// vocabulary.
    Transcribe,
    /// Request: read the frontmost process id.
    ReadFrontmost,
    /// Request: bring this process to the front.
    Reactivate(i32),
    /// Request: paste the draft into the captured target.
    PasteDraft,
    /// Request: refine the draft.
    Refine,
    /// Request: replace the last `prev_char_count` characters with the
    /// refined text.
    ReplaceDraft { prev_char_count: usize },
    SendStatus(TrayStatus),
    Sleep(u64),
    Log(String),
    LogError(String),
    /// Log the captured audio's duration, rate and channels.
    LogCapture(CaptureInfo),
    /// End the session with this error.
    Fail(String),
}

/// A status as contracts speak of it.
pub enum StatusView {
    Idle,
    Recording,
    Processing,
    Success,
    Error(Seq<char>),
}

/// An effect as contracts speak of it.
pub enum EffectView {
    WaitHotkey,
    CaptureFocus,
    BeginCapture,
    PlayStartSound,
    PlayStopSound,
    EndCapture,
    PersistVocab,
    Transcribe,
    ReadFrontmost,
    Reactivate(i32),
    PasteDraft,
    Refine,
    ReplaceDraft(usize),
    SendStatus(StatusView),
    Sleep(u64),
    Log(Seq<char>),
    LogError(Seq<char>),
    LogCapture(u64, u32, u16),
    Fail(Seq<char>),
}

pub open spec fn status_view(s: TrayStatus) -> StatusView {
    match s {
        TrayStatus::Idle => StatusView::Idle,
        TrayStatus::Recording => StatusView::Recording,
        TrayStatus::Processing => StatusView::Processing,
        TrayStatus::Success => StatusView::Success,
        TrayStatus::Error(m) => StatusView::Error(m@),
    }
}

pub open spec fn effect_view(e: Effect) -> EffectView {
    match e {
        Effect::WaitHotkey => EffectView::WaitHotkey,
        Effect::CaptureFocus => EffectView::CaptureFocus,
        Effect::BeginCapture => EffectView::BeginCapture,
        Effect::PlayStartSound => EffectView::PlayStartSound,
        Effect::PlayStopSound => EffectView::PlayStopSound,
        Effect::EndCapture => EffectView::EndCapture,
        Effect::PersistVocab => EffectView::PersistVocab,
        Effect::Transcribe => EffectView::Transcribe,
        Effect::ReadFrontmost => EffectView::ReadFrontmost,
        Effect::Reactivate(p) => EffectView::Reactivate(p),
        Effect::PasteDraft => EffectView::PasteDraft,
        Effect::Refine => EffectView::Refine,
        Effect::ReplaceDraft { prev_char_count } => EffectView::ReplaceDraft(prev_char_count),
        Effect::SendStatus(s) => EffectView::SendStatus(status_view(s)),
        Effect::Sleep(ms) => EffectView::Sleep(ms),
        Effect::Log(s) => EffectView::Log(s@),
        Effect::LogError(s) => EffectView::LogError(s@),
        Effect::LogCapture(i) => EffectView::LogCapture(i.duration_ms, i.sample_rate_hz, i.channels),
        Effect::Fail(s) => EffectView::Fail(s@),
    }
}

pub open spec fn effects_view(v: Seq<Effect>) -> Seq<EffectView> {
    v.map_values(|e: Effect| effect_view(e))
}

/// The session as contracts speak of it.
pub struct SessionView {
    pub phase: Phase,
    pub capture: Option<CaptureContext>,
    pub draft: Option<TranscriptDraft>,
    pub vocabulary: Seq<Seq<char>>,
    pub refined: Seq<char>,
    pub personal: Seq<TermEntry>,
}

// ───────────────────────── the transition table ─────────────────────────

/// Back to idle after a failure: report it, show the error for two seconds,
/// then idle, and wait for the key.
pub open spec fn failure_tail(status_message: Seq<char>) -> Seq<EffectView> {
    seq![
        EffectView::SendStatus(StatusView::Error(status_message)),
        EffectView::Sleep(2000),
        EffectView::SendStatus(StatusView::Idle),
        EffectView::WaitHotkey,
    ]
}

/// Back to idle after a dictation: flash success, then idle, and wait.
pub open spec fn success_tail() -> Seq<EffectView> {
    seq![
        EffectView::SendStatus(StatusView::Success),
        EffectView::Sleep(1200),
        EffectView::SendStatus(StatusView::Idle),
        EffectView::WaitHotkey,
    ]
}

pub open spec fn context_line(c: CaptureContext) -> Seq<char> {
    "[context] app=\""@ + c.target.app_name@ + "\" window=\""@ + c.context.window_title@
        + "\" role=\""@ + c.context.focused_role@ + "\""@
}

/// Whether recording `vocabulary` keeps every count within `usize`.
pub open spec fn record_fits(personal: Seq<TermEntry>, n: nat) -> bool {
    n < usize::MAX && forall|i: int| 0 <= i < personal.len() ==> (#[trigger] personal[i]).0 + n < usize::MAX
}

pub open spec fn idle_view(s: SessionView) -> SessionView {
    SessionView { phase: Phase::Idle, capture: None, draft: None, ..s }
}

/// Whether the session is waiting for this kind of event.
pub open spec fn expects(phase: Phase, e: SessionEvent) -> bool {
    match e {
        SessionEvent::Hotkey(_) | SessionEvent::HotkeyStreamClosed => phase == Phase::Idle || phase
            == Phase::Recording,
        SessionEvent::FocusCaptured(_) => phase == Phase::CapturingFocus,
        SessionEvent::CaptureBegun(_) => phase == Phase::StartingCapture,
        SessionEvent::CaptureEnded(_) => phase == Phase::Stopping,
        SessionEvent::Transcribed(_) => phase == Phase::Transcribing,
        SessionEvent::Frontmost(_) => phase == Phase::CheckingFocus,
        SessionEvent::Reactivated(_) => phase == Phase::Reactivating,
        SessionEvent::Pasted(_) => phase == Phase::Pasting,
        SessionEvent::Refined(_) => phase == Phase::Refining,
        SessionEvent::Replaced(_) => phase == Phase::Replacing,
    }
}

/// The captured context and draft are there in the phases that use them.
pub open spec fn session_wf(s: SessionView) -> bool {
    &&& (s.phase == Phase::StartingCapture || s.phase == Phase::Recording || s.phase == Phase::Stopping
        || s.phase == Phase::Transcribing || s.phase == Phase::CheckingFocus || s.phase
        == Phase::Reactivating || s.phase == Phase::Pasting || s.phase == Phase::Refining || s.phase
        == Phase::Replacing) ==> s.capture is Some
    &&& (s.phase == Phase::CheckingFocus || s.phase == Phase::Reactivating || s.phase == Phase::Pasting
        || s.phase == Phase::Refining || s.phase == Phase::Replacing) ==> s.draft is Some
}

/// The next session and the effects, for an expected event.
pub open spec fn transition(s: SessionView, e: SessionEvent) -> (SessionView, Seq<EffectView>) {
    match e {
        SessionEvent::Hotkey(HotkeyEvent::Pressed) => if s.phase == Phase::Idle {
            (SessionView { phase: Phase::CapturingFocus, ..s }, seq![EffectView::CaptureFocus])
        } else {
            (s, seq![EffectView::WaitHotkey])
        },
        SessionEvent::Hotkey(HotkeyEvent::Released) => if s.phase == Phase::Recording {
            (SessionView { phase: Phase::Stopping, ..s }, seq![EffectView::PlayStopSound, EffectView::EndCapture])
        } else {
            (s, seq![EffectView::WaitHotkey])
        },
        SessionEvent::HotkeyStreamClosed => (
            SessionView { phase: Phase::Stopped, ..s },
            seq![EffectView::Fail("hotkey stream disconnected"@)],
        ),
        SessionEvent::FocusCaptured(c) => (
            SessionView { phase: Phase::StartingCapture, capture: Some(c), ..s },
            seq![EffectView::Log(context_line(c)), EffectView::BeginCapture],
        ),
        SessionEvent::CaptureBegun(Ok(())) => (
            SessionView { phase: Phase::Recording, ..s },
            seq![
                EffectView::PlayStartSound,
                EffectView::SendStatus(StatusView::Recording),
                EffectView::Log("[recording] started"@),
                EffectView::WaitHotkey,
            ],
        ),
        SessionEvent::CaptureBegun(Err(m)) => (
            SessionView { phase: Phase::Stopped, ..s },
            seq![EffectView::Fail(m@)],
        ),
        SessionEvent::CaptureEnded(Err(m)) => (
            idle_view(s),
            seq![EffectView::LogError("[recording] stop failed: "@ + m@)] + failure_tail(m@),
        ),
        SessionEvent::CaptureEnded(Ok(info)) => {
            let vocab = merged_terms_spec(s.capture->0.context, s.personal, VOCABULARY_LIMIT as nat);
            let fits = record_fits(s.personal, vocab.len());
            let personal = if fits {
                count_terms(s.personal, vocab)
            } else {
                s.personal
            };
            let persist: Seq<EffectView> = if fits && vocab.len() > 0 {
                seq![EffectView::PersistVocab]
            } else {
                seq![]
            };
            (
                SessionView { phase: Phase::Transcribing, vocabulary: vocab, personal, ..s },
                seq![EffectView::LogCapture(info.duration_ms, info.sample_rate_hz, info.channels)]
                    + persist + seq![
                    EffectView::SendStatus(StatusView::Processing),
                    EffectView::Log("[transcription] sending audio\u{2026}"@),
                    EffectView::Transcribe,
                ],
            )
        },
        SessionEvent::Transcribed(Err(m)) => (
            idle_view(s),
            seq![EffectView::LogError("[transcription] failed: "@ + m@)] + failure_tail(
                "transcription failed"@,
            ),
        ),
        SessionEvent::Transcribed(Ok(d)) => (
            SessionView { phase: Phase::CheckingFocus, draft: Some(d), ..s },
            seq![EffectView::Log("[transcription] "@ + d.raw_text@), EffectView::ReadFrontmost],
        ),
        SessionEvent::Frontmost(current) => {
            let pid = s.capture->0.pid;
            if pid > 0 && current != pid {
                (
                    SessionView { phase: Phase::Reactivating, ..s },
                    seq![
                        EffectView::Log("[paste] focus drifted \u{2014} reactivating original app"@),
                        EffectView::Reactivate(pid),
                    ],
                )
            } else {
                (SessionView { phase: Phase::Pasting, ..s }, seq![EffectView::PasteDraft])
            }
        },
        SessionEvent::Reactivated(Ok(())) => (
            SessionView { phase: Phase::Pasting, ..s },
            seq![EffectView::PasteDraft],
        ),
        SessionEvent::Reactivated(Err(m)) => (
            SessionView { phase: Phase::Pasting, ..s },
            seq![EffectView::LogError("[paste] reactivation failed: "@ + m@), EffectView::PasteDraft],
        ),
        SessionEvent::Pasted(Err(m)) => (
            idle_view(s),
            seq![EffectView::LogError("[paste] failed: "@ + m@)] + failure_tail("paste failed"@),
        ),
        SessionEvent::Pasted(Ok(())) => (
            SessionView { phase: Phase::Refining, ..s },
            seq![
                EffectView::Log("[paste] draft done"@),
                EffectView::Log("[refinement] refining\u{2026}"@),
                EffectView::Refine,
            ],
        ),
        SessionEvent::Refined(Ok(f)) => if f.was_refined {
            (
                SessionView { phase: Phase::Replacing, refined: f.text@, ..s },
                seq![
                    EffectView::Log("[refinement] "@ + f.text@),
                    EffectView::ReplaceDraft(s.draft->0.raw_text@.len() as usize),
                ],
            )
        } else {
            (idle_view(s), seq![EffectView::Log("[refinement] no changes needed"@)] + success_tail())
        },
        SessionEvent::Refined(Err(m)) => (
            idle_view(s),
            seq![EffectView::LogError("[refinement] failed, keeping draft: "@ + m@)] + success_tail(),
        ),
        SessionEvent::Replaced(Err(m)) => (
            idle_view(s),
            seq![EffectView::LogError("[refinement] replace failed: "@ + m@)] + success_tail(),
        ),
        SessionEvent::Replaced(Ok(())) => (
            idle_view(s),
            seq![EffectView::Log("[paste] refined"@)] + success_tail(),
        ),
    }
}

// ───────────────────────── the session ─────────────────────────

/// One live dictation loop's state, with the user's vocabulary store.
pub struct LiveSession {
    phase: Phase,
    capture: Option<CaptureContext>,
    draft: Option<TranscriptDraft>,
    vocabulary: Vec<String>,
    refined: String,
    personal: PersonalVocab,
}

impl View for LiveSession {
    type V = SessionView;

    closed spec fn view(&self) -> SessionView {
        SessionView {
            phase: self.phase,
            capture: self.capture,
            draft: self.draft,
            vocabulary: string_views(self.vocabulary@),
            refined: self.refined@,
            personal: self.personal@,
        }
    }
}

fn msg(s: &str) -> (r: String)
    ensures
        r@ == s@,
{
    string_from_chars(&chars_of(s))
}

fn msg2(a: &str, b: &str) -> (r: String)
    ensures
        r@ == a@ + b@,
{
    let mut v: Vec<char> = Vec::new();
    push_str(&mut v, a);
    push_str(&mut v, b);
    string_from_chars(&v)
}

fn push_failure_tail(out: &mut Vec<Effect>, status_message: String)
    ensures
        effects_view(final(out)@) == effects_view(old(out)@) + failure_tail(status_message@),
{
    let ghost start = out@;
    out.push(Effect::SendStatus(TrayStatus::Error(status_message)));
    out.push(Effect::Sleep(2000));
    out.push(Effect::SendStatus(TrayStatus::Idle));
    out.push(Effect::WaitHotkey);
    assert(effects_view(out@) =~= effects_view(start) + failure_tail(status_message@));
}

fn push_success_tail(out: &mut Vec<Effect>)
    ensures
        effects_view(final(out)@) == effects_view(old(out)@) + success_tail(),
{
    let ghost start = out@;
    out.push(Effect::SendStatus(TrayStatus::Success));
    out.push(Effect::Sleep(1200));
    out.push(Effect::SendStatus(TrayStatus::Idle));
    out.push(Effect::WaitHotkey);
    assert(effects_view(out@) =~= effects_view(start) + success_tail());
}

fn one(e: Effect) -> (v: Vec<Effect>)
    ensures
        effects_view(v@) == seq![effect_view(e)],
{
    let mut v: Vec<Effect> = Vec::new();
    v.push(e);
    assert(effects_view(v@) =~= seq![effect_view(e)]);
    v
}

fn two(a: Effect, b: Effect) -> (v: Vec<Effect>)
    ensures
        effects_view(v@) == seq![effect_view(a), effect_view(b)],
{
    let mut v: Vec<Effect> = Vec::new();
    v.push(a);
    v.push(b);
    assert(effects_view(v@) =~= seq![effect_view(a), effect_view(b)]);
    v
}

fn char_count(s: &String) -> (n: usize)
    ensures
        n == s@.len(),
{
    chars_of(s.as_str()).len()
}

fn context_line_exec(c: &CaptureContext) -> (r: String)
    ensures
        r@ == context_line(*c),
{
    let mut v: Vec<char> = Vec::new();
    push_str(&mut v, "[context] app=\"");
    push_str(&mut v, c.target.app_name.as_str());
    push_str(&mut v, "\" window=\"");
    push_str(&mut v, c.context.window_title.as_str());
    push_str(&mut v, "\" role=\"");
    push_str(&mut v, c.context.focused_role.as_str());
    push_str(&mut v, "\"");
    string_from_chars(&v)
}

impl LiveSession {
    /// What the session holds matches its phase.
    #[verifier::type_invariant]
    spec fn holds_what_phase_needs(self) -> bool {
        session_wf(self@)
    }

    /// A session waiting for the key, with the user's stored vocabulary.
    pub fn new(personal: PersonalVocab) -> (s: LiveSession)
        ensures
            s@ == (SessionView {
                phase: Phase::Idle,
                capture: None,
                draft: None,
                vocabulary: Seq::<Seq<char>>::empty(),
                refined: Seq::<char>::empty(),
                personal: personal@,
            }),
            session_wf(s@),
    {
        let s = LiveSession {
            phase: Phase::Idle,
            capture: None,
            draft: None,
            vocabulary: Vec::new(),
            refined: String::new(),
            personal,
        };
        assert(string_views(s.vocabulary@) =~= Seq::<Seq<char>>::empty());
        assert(s.refined@ =~= Seq::<char>::empty());
        s
    }

    /// The greeting, then a wait for the key.
    pub fn start(&self, trigger_name: &str) -> (v: Vec<Effect>)
        ensures
            effects_view(v@) == seq![
                EffectView::Log("OpenFlow is running."@),
                EffectView::Log("Hold "@ + trigger_name@ + " to record, release to transcribe and paste."@),
                EffectView::Log("Press Ctrl+C to stop."@),
                EffectView::WaitHotkey,
            ],
    {
        let mut v: Vec<Effect> = Vec::new();
        v.push(Effect::Log(msg("OpenFlow is running.")));
        let mut line: Vec<char> = Vec::new();
        push_str(&mut line, "Hold ");
        push_str(&mut line, trigger_name);
        push_str(&mut line, " to record, release to transcribe and paste.");
        v.push(Effect::Log(string_from_chars(&line)));
        v.push(Effect::Log(msg("Press Ctrl+C to stop.")));
        v.push(Effect::WaitHotkey);
        assert(effects_view(v@) =~= seq![
            EffectView::Log("OpenFlow is running."@),
            EffectView::Log("Hold "@ + trigger_name@ + " to record, release to transcribe and paste."@),
            EffectView::Log("Press Ctrl+C to stop."@),
            EffectView::WaitHotkey,
        ]);
        v
    }

    /// Whether the session waits for this event.
    pub fn accepts(&self, e: &SessionEvent) -> (b: bool)
        ensures
            b == expects(self@.phase, *e),
    {
        let p = self.phase;
        match e {
            SessionEvent::Hotkey(_) | SessionEvent::HotkeyStreamClosed => p == Phase::Idle || p
                == Phase::Recording,
            SessionEvent::FocusCaptured(_) => p == Phase::CapturingFocus,
            SessionEvent::CaptureBegun(_) => p == Phase::StartingCapture,
            SessionEvent::CaptureEnded(_) => p == Phase::Stopping,
            SessionEvent::Transcribed(_) => p == Phase::Transcribing,
            SessionEvent::Frontmost(_) => p == Phase::CheckingFocus,
            SessionEvent::Reactivated(_) => p == Phase::Reactivating,
            SessionEvent::Pasted(_) => p == Phase::Pasting,
            SessionEvent::Refined(_) => p == Phase::Refining,
            SessionEvent::Replaced(_) => p == Phase::Replacing,
        }
    }

    pub fn phase(&self) -> (p: Phase)
        ensures
            p == self@.phase,
    {
        self.phase
    }

    /// Where the user was when the key went down.
    pub fn capture(&self) -> (c: Option<&CaptureContext>)
        ensures
            match c {
                Some(r) => self@.capture == Some(*r),
                None => self@.capture.is_none(),
            },
    {
        self.capture.as_ref()
    }

    /// The pasted draft.
    pub fn draft(&self) -> (d: Option<&TranscriptDraft>)
        ensures
            match d {
                Some(r) => self@.draft == Some(*r),
                None => self@.draft.is_none(),
            },
    {
        self.draft.as_ref()
    }

    /// The vocabulary of the current dictation.
    pub fn vocabulary(&self) -> (v: &Vec<String>)
        ensures
            string_views(v@) == self@.vocabulary,
    {
        &self.vocabulary
    }

    /// The refined text that replaces the draft.
    pub fn refined_text(&self) -> (t: &String)
        ensures
            t@ == self@.refined,
    {
        &self.refined
    }

    /// The user's vocabulary store.
    pub fn personal(&self) -> (p: &PersonalVocab)
        ensures
            p@ == self@.personal,
    {
        &self.personal
    }

    fn go_idle(&mut self)
        ensures
            final(self)@ == idle_view(old(self)@),
    {
        self.phase = Phase::Idle;
        self.capture = None;
        self.draft = None;
    }

    /// Takes the next event and answers with the effects to perform.
    pub fn step(&mut self, e: SessionEvent) -> (v: Vec<Effect>)
        requires
            expects(old(self)@.phase, e),
        ensures
            (final(self)@, effects_view(v@)) == transition(old(self)@, e),
            session_wf(old(self)@),
            session_wf(final(self)@),
    {
        proof {
            use_type_invariant(&*self);
        }
        let ghost s = self@;
        match e {
            SessionEvent::Hotkey(HotkeyEvent::Pressed) => {
                if self.phase == Phase::Idle {
                    self.phase = Phase::CapturingFocus;
                    one(Effect::CaptureFocus)
                } else {
                    one(Effect::WaitHotkey)
                }
            },
            SessionEvent::Hotkey(HotkeyEvent::Released) => {
                if self.phase == Phase::Recording {
                    self.phase = Phase::Stopping;
                    two(Effect::PlayStopSound, Effect::EndCapture)
                } else {
                    one(Effect::WaitHotkey)
                }
            },
            SessionEvent::HotkeyStreamClosed => {
                self.phase = Phase::Stopped;
                one(Effect::Fail(msg("hotkey stream disconnected")))
            },
            SessionEvent::FocusCaptured(c) => {
                let line = context_line_exec(&c);
                self.capture = Some(c);
                self.phase = Phase::StartingCapture;
                two(Effect::Log(line), Effect::BeginCapture)
            },
            SessionEvent::CaptureBegun(Ok(())) => {
                self.phase = Phase::Recording;
                let mut v: Vec<Effect> = Vec::new();
                v.push(Effect::PlayStartSound);
                v.push(Effect::SendStatus(TrayStatus::Recording));
                v.push(Effect::Log(msg("[recording] started")));
                v.push(Effect::WaitHotkey);
                assert(effects_view(v@) =~= transition(s, e).1);
                v
            },
            SessionEvent::CaptureBegun(Err(m)) => {
                self.phase = Phase::Stopped;
                one(Effect::Fail(m))
            },
            SessionEvent::CaptureEnded(Err(m)) => {
                self.go_idle();
                let mut v = one(Effect::LogError(msg2("[recording] stop failed: ", m.as_str())));
                push_failure_tail(&mut v, m);
                v
            },
            SessionEvent::CaptureEnded(Ok(info)) => self.after_capture(info),
            SessionEvent::Transcribed(Err(m)) => {
                self.go_idle();
                let mut v = one(Effect::LogError(msg2("[transcription] failed: ", m.as_str())));
                push_failure_tail(&mut v, msg("transcription failed"));
                v
            },
            SessionEvent::Transcribed(Ok(d)) => {
                let line = msg2("[transcription] ", d.raw_text.as_str());
                self.draft = Some(d);
                self.phase = Phase::CheckingFocus;
                two(Effect::Log(line), Effect::ReadFrontmost)
            },
            SessionEvent::Frontmost(current) => {
                let pid = match &self.capture {
                    Some(c) => c.pid,
                    None => -1,
                };
                if pid > 0 && current != pid {
                    self.phase = Phase::Reactivating;
                    two(
                        Effect::Log(msg("[paste] focus drifted \u{2014} reactivating original app")),
                        Effect::Reactivate(pid),
                    )
                } else {
                    self.phase = Phase::Pasting;
                    one(Effect::PasteDraft)
                }
            },
            SessionEvent::Reactivated(Ok(())) => {
                self.phase = Phase::Pasting;
                one(Effect::PasteDraft)
            },
            SessionEvent::Reactivated(Err(m)) => {
                self.phase = Phase::Pasting;
                two(Effect::LogError(msg2("[paste] reactivation failed: ", m.as_str())), Effect::PasteDraft)
            },
            SessionEvent::Pasted(Err(m)) => {
                self.go_idle();
                let mut v = one(Effect::LogError(msg2("[paste] failed: ", m.as_str())));
                push_failure_tail(&mut v, msg("paste failed"));
                v
            },
            SessionEvent::Pasted(Ok(())) => {
                self.phase = Phase::Refining;
                let mut v: Vec<Effect> = Vec::new();
                v.push(Effect::Log(msg("[paste] draft done")));
                v.push(Effect::Log(msg("[refinement] refining\u{2026}")));
                v.push(Effect::Refine);
                assert(effects_view(v@) =~= transition(s, e).1);
                v
            },
            SessionEvent::Refined(Ok(f)) => {
                if f.was_refined {
                    let count = match &self.draft {
                        Some(d) => char_count(&d.raw_text),
                        None => 0,
                    };
                    let line = msg2("[refinement] ", f.text.as_str());
                    self.refined = f.text;
                    self.phase = Phase::Replacing;
                    two(Effect::Log(line), Effect::ReplaceDraft { prev_char_count: count })
                } else {
                    self.go_idle();
                    let mut v = one(Effect::Log(msg("[refinement] no changes needed")));
                    push_success_tail(&mut v);
                    v
                }
            },
            SessionEvent::Refined(Err(m)) => {
                self.go_idle();
                let mut v = one(Effect::LogError(msg2("[refinement] failed, keeping draft: ", m.as_str())));
                push_success_tail(&mut v);
                v
            },
            SessionEvent::Replaced(Err(m)) => {
                self.go_idle();
                let mut v = one(Effect::LogError(msg2("[refinement] replace failed: ", m.as_str())));
                push_success_tail(&mut v);
                v
            },
            SessionEvent::Replaced(Ok(())) => {
                self.go_idle();
                let mut v = one(Effect::Log(msg("[paste] refined")));
                push_success_tail(&mut v);
                v
            },
        }
    }

    fn after_capture(&mut self, info: CaptureInfo) -> (v: Vec<Effect>)
        requires
            old(self)@.phase == Phase::Stopping,
            old(self)@.capture is Some,
        ensures
            (final(self)@, effects_view(v@)) == transition(old(self)@, SessionEvent::CaptureEnded(Ok(info))),
            session_wf(final(self)@),
    {
        let ghost s = self@;
        let vocab = match &self.capture {
            Some(c) => merged_terms(&c.context, &self.personal, VOCABULARY_LIMIT),
            None => Vec::new(),
        };
        let mut v = one(Effect::LogCapture(info));
        let max = self.personal.max_count();
        let n = vocab.len();
        let fits = n < usize::MAX && max < usize::MAX - n;
        proof {
            if fits {
                assert forall|i: int| 0 <= i < s.personal.len() implies (#[trigger] s.personal[i]).0 + n < usize::MAX by {}
            } else if n < usize::MAX {
                let i = choose|i: int| 0 <= i < s.personal.len() && (#[trigger] s.personal[i]).0 == max;
                assert(s.personal[i].0 + n >= usize::MAX);
            }
        }
        if fits {
            let mut personal = PersonalVocab::new();
            std::mem::swap(&mut self.personal, &mut personal);
            personal.record(vocab.as_slice());
            self.personal = personal;
            if n > 0 {
                let ghost before = v@;
                v.push(Effect::PersistVocab);
                assert(effects_view(v@) =~= effects_view(before).push(EffectView::PersistVocab));
            }
        }
        let ghost before = v@;
        v.push(Effect::SendStatus(TrayStatus::Processing));
        v.push(Effect::Log(msg("[transcription] sending audio\u{2026}")));
        v.push(Effect::Transcribe);
        self.vocabulary = vocab;
        self.phase = Phase::Transcribing;
        assert(effects_view(v@) =~= transition(s, SessionEvent::CaptureEnded(Ok(info))).1);
        assert(self@ == transition(s, SessionEvent::CaptureEnded(Ok(info))).0);
        v
    }
}

// ───────────────────────── best-effort context ─────────────────────────

/// The target used when the focused element cannot be read.
pub fn fallback_focus_target() -> (t: FocusTarget)
    ensures
        t.app_name@ == "CurrentApp"@,
        t.element_role@ == "Unknown"@,
{
    FocusTarget { app_name: msg("CurrentApp"), element_role: msg("Unknown") }
}

/// The context used when the screen cannot be read: the target's app and
/// role, nothing else.
pub fn fallback_screen_context(t: &FocusTarget) -> (c: ScreenContext)
    ensures
        c.app_name@ == t.app_name@,
        c.window_title@ == Seq::<char>::empty(),
        c.focused_role@ == t.element_role@,
        c.focused_value_preview@ == Seq::<char>::empty(),
        c.visible_text@ == Seq::<char>::empty(),
{
    ScreenContext {
        app_name: msg(t.app_name.as_str()),
        window_title: String::new(),
        focused_role: msg(t.element_role.as_str()),
        focused_value_preview: String::new(),
        visible_text: String::new(),
    }
}

// ───────────────────────── laws ─────────────────────────

/// A key press while recording, and a release while idle, change nothing:
/// the session just waits for the next key edge.
pub proof fn lemma_stray_edges_ignored(s: SessionView)
    ensures
        s.phase == Phase::Recording ==> transition(s, SessionEvent::Hotkey(HotkeyEvent::Pressed))
            == (s, seq![EffectView::WaitHotkey]),
        s.phase == Phase::Idle ==> transition(s, SessionEvent::Hotkey(HotkeyEvent::Released)) == (
            s,
            seq![EffectView::WaitHotkey],
        ),
{
}

/// Every failure after the key is released (capture, transcription, paste)
/// ends the dictation: the session is idle again, the menu bar shows the
/// error and then idle, and the session waits for the key.
pub proof fn lemma_failures_return_to_idle(s: SessionView, m: String)
    ensures
        ({
            let (s1, fx) = transition(s, SessionEvent::CaptureEnded(Err(m)));
            s1.phase == Phase::Idle && fx.len() == 5 && fx.skip(1) == failure_tail(m@)
        }),
        ({
            let (s1, fx) = transition(s, SessionEvent::Transcribed(Err(m)));
            s1.phase == Phase::Idle && fx.skip(1) == failure_tail("transcription failed"@)
        }),
        ({
            let (s1, fx) = transition(s, SessionEvent::Pasted(Err(m)));
            s1.phase == Phase::Idle && fx.skip(1) == failure_tail("paste failed"@)
        }),
{
    let (_, a) = transition(s, SessionEvent::CaptureEnded(Err(m)));
    assert(a.skip(1) =~= failure_tail(m@));
    let (_, b) = transition(s, SessionEvent::Transcribed(Err(m)));
    assert(b.skip(1) =~= failure_tail("transcription failed"@));
    let (_, c) = transition(s, SessionEvent::Pasted(Err(m)));
    assert(c.skip(1) =~= failure_tail("paste failed"@));
}

/// A refinement failure keeps the pasted draft: no replacement is asked
/// for, and the dictation still ends as a success.
pub proof fn lemma_refinement_failure_keeps_draft(s: SessionView, m: String)
    ensures
        ({
            let (s1, fx) = transition(s, SessionEvent::Refined(Err(m)));
            s1.phase == Phase::Idle && fx.skip(1) == success_tail()
        }),
{
    let (_, a) = transition(s, SessionEvent::Refined(Err(m)));
    assert(a.skip(1) =~= success_tail());
}

/// A refined text replaces exactly the characters of the pasted draft.
pub proof fn lemma_replacement_covers_draft(s: SessionView, f: FinalTranscript)
    requires
        s.draft is Some,
        f.was_refined,
    ensures
        transition(s, SessionEvent::Refined(Ok(f))).1.last() == EffectView::ReplaceDraft(
            s.draft->0.raw_text@.len() as usize,
        ),
        transition(s, SessionEvent::Refined(Ok(f))).0.refined == f.text@,
{
}

/// An effect that asks the program for something whose outcome is the
/// next event.
pub open spec fn is_request(e: EffectView) -> bool {
    match e {
        EffectView::WaitHotkey | EffectView::CaptureFocus | EffectView::BeginCapture
        | EffectView::EndCapture | EffectView::Transcribe | EffectView::ReadFrontmost
        | EffectView::Reactivate(_) | EffectView::PasteDraft | EffectView::Refine
        | EffectView::ReplaceDraft(_) | EffectView::Fail(_) => true,
        _ => false,
    }
}

/// The phase that waits for the outcome of a request.
pub open spec fn waits_for(e: EffectView, phase: Phase) -> bool {
    match e {
        EffectView::WaitHotkey => phase == Phase::Idle || phase == Phase::Recording,
        EffectView::CaptureFocus => phase == Phase::CapturingFocus,
        EffectView::BeginCapture => phase == Phase::StartingCapture,
        EffectView::EndCapture => phase == Phase::Stopping,
        EffectView::Transcribe => phase == Phase::Transcribing,
        EffectView::ReadFrontmost => phase == Phase::CheckingFocus,
        EffectView::Reactivate(_) => phase == Phase::Reactivating,
        EffectView::PasteDraft => phase == Phase::Pasting,
        EffectView::Refine => phase == Phase::Refining,
        EffectView::ReplaceDraft(_) => phase == Phase::Replacing,
        EffectView::Fail(_) => phase == Phase::Stopped,
        _ => false,
    }
}

/// Every answer ends with exactly one request, and the session then waits
/// for that request's outcome: the dictation loop never stalls and never
/// has two questions open.
pub proof fn lemma_answers_end_in_one_request(s: SessionView, e: SessionEvent)
    requires
        expects(s.phase, e),
        session_wf(s),
    ensures
        ({
            let (s1, fx) = transition(s, e);
            &&& fx.len() > 0
            &&& is_request(fx.last())
            &&& waits_for(fx.last(), s1.phase)
            &&& forall|i: int| 0 <= i < fx.len() - 1 ==> !is_request(#[trigger] fx[i])
        }),
{
    let (s1, fx) = transition(s, e);
    match e {
        SessionEvent::CaptureEnded(Ok(info)) => {
            let vocab = merged_terms_spec(s.capture->0.context, s.personal, VOCABULARY_LIMIT as nat);
            let fits = record_fits(s.personal, vocab.len());
            let persist: Seq<EffectView> = if fits && vocab.len() > 0 {
                seq![EffectView::PersistVocab]
            } else {
                seq![]
            };
            let head = seq![EffectView::LogCapture(info.duration_ms, info.sample_rate_hz, info.channels)];
            let tail = seq![
                EffectView::SendStatus(StatusView::Processing),
                EffectView::Log("[transcription] sending audio\u{2026}"@),
                EffectView::Transcribe,
            ];
            assert(fx == head + persist + tail);
            assert forall|i: int| 0 <= i < fx.len() - 1 implies !is_request(#[trigger] fx[i]) by {
                if i < head.len() + persist.len() {
                    assert((head + persist)[i] == fx[i]);
                }
            }
        },
        _ => {},
    }
}

/// A refinement that changed nothing never touches the pasted draft.
pub proof fn lemma_unchanged_refinement_keeps_paste(s: SessionView, f: FinalTranscript)
    requires
        !f.was_refined,
    ensures
        forall|i: int|
            0 <= i < transition(s, SessionEvent::Refined(Ok(f))).1.len() ==> !(
            #[trigger] transition(s, SessionEvent::Refined(Ok(f))).1[i] is ReplaceDraft),
{
}

/// Whether the effects report a successful dictation.
pub open spec fn reports_success(fx: Seq<EffectView>) -> bool {
    exists|i: int| 0 <= i < fx.len() && fx[i] == EffectView::SendStatus(StatusView::Success)
}

/// The draft is pasted before any success is reported: success is reported
/// only while refining or replacing; refining is entered only from pasting
/// (once the paste went through) and replacing only from refining; and once
/// a transcript is in, checking focus and reactivating lead only to
/// reactivating or to pasting, with the paste asked for.
pub proof fn lemma_draft_pasted_before_success(s: SessionView, e: SessionEvent)
    requires
        expects(s.phase, e),
        session_wf(s),
    ensures
        ({
            let (s1, fx) = transition(s, e);
            &&& reports_success(fx) ==> s.phase == Phase::Refining || s.phase == Phase::Replacing
            &&& s1.phase == Phase::Refining ==> s.phase == Phase::Pasting && (match e {
                SessionEvent::Pasted(Ok(_)) => true,
                _ => false,
            })
            &&& s1.phase == Phase::Replacing ==> s.phase == Phase::Refining
            &&& (s.phase == Phase::CheckingFocus || s.phase == Phase::Reactivating) ==> {
                ||| s1.phase == Phase::Reactivating
                ||| s1.phase == Phase::Pasting && fx.last() == EffectView::PasteDraft
            }
        }),
{
    let (s1, fx) = transition(s, e);
    if reports_success(fx) {
        let i = choose|i: int| 0 <= i < fx.len() && fx[i] == EffectView::SendStatus(StatusView::Success);
        match e {
            SessionEvent::CaptureEnded(Ok(info)) => {
                let vocab = merged_terms_spec(s.capture->0.context, s.personal, VOCABULARY_LIMIT as nat);
                let fits = record_fits(s.personal, vocab.len());
                let persist: Seq<EffectView> = if fits && vocab.len() > 0 {
                    seq![EffectView::PersistVocab]
                } else {
                    seq![]
                };
                let head = seq![EffectView::LogCapture(info.duration_ms, info.sample_rate_hz, info.channels)];
                let tail = seq![
                    EffectView::SendStatus(StatusView::Processing),
                    EffectView::Log("[transcription] sending audio\u{2026}"@),
                    EffectView::Transcribe,
                ];
                assert(fx == head + persist + tail);
                if i < head.len() + persist.len() {
                    assert((head + persist)[i] == fx[i]);
                }
            },
            _ => {},
        }
    }
}

} // verus!
