//! The values that flow through a dictation session.
use vstd::prelude::*;

use crate::text::{chars_of, decimal, decimal_chars, push_chars, push_str, string_from_chars};

verus! {

/// Edges of the hold-to-talk key.
#[derive(Debug, Clone, Copy, PartialEq, Eq, Structural)]
pub enum HotkeyEvent {
    Pressed,
    Released,
}

/// Captured microphone audio, ready for upload.
#[derive(Debug, Clone)]
pub struct AudioBuffer {
    pub pcm_frames: usize,
    /// How long the key was held, in milliseconds.
    pub duration_ms: u64,
    pub sample_rate_hz: u32,
    pub channels: u16,
    pub wav_bytes: Vec<u8>,
}

/// What the user was looking at when recording started.
#[derive(Debug, Clone)]
pub struct ScreenContext {
    pub app_name: String,
    pub window_title: String,
    pub focused_role: String,
    pub focused_value_preview: String,
    pub visible_text: String,
}

/// The full, untruncated prompt text describing a screen context.
pub open spec fn context_prompt_text(c: ScreenContext) -> Seq<char> {
    "App: "@ + c.app_name@ + "\nWindow: "@ + c.window_title@ + "\nFocused role: "@
        + c.focused_role@ + "\nFocused field preview: "@ + c.focused_value_preview@
        + "\nVisible screen text: "@ + c.visible_text@
}

/// The first `n` elements of `s` (all of them when `s` is shorter).
pub open spec fn take_at_most<A>(s: Seq<A>, n: nat) -> Seq<A> {
    if s.len() <= n {
        s
    } else {
        s.take(n as int)
    }
}

/// The first `max_chars` characters of `v`.
pub fn take_chars(v: &Vec<char>, max_chars: usize) -> (r: Vec<char>)
    ensures
        r@ == take_at_most(v@, max_chars as nat),
{
    let n = if v.len() <= max_chars {
        v.len()
    } else {
        max_chars
    };
    let mut out: Vec<char> = Vec::new();
    let mut i: usize = 0;
    while i < n
        invariant
            i <= n <= v.len(),
            out@ == v@.take(i as int),
        decreases n - i,
    {
        out.push(v[i]);
        i += 1;
        assert(out@ =~= v@.take(i as int));
    }
    assert(v.len() <= max_chars ==> v@.take(n as int) =~= v@);
    out
}

impl ScreenContext {
    /// A labelled description of the context, cut to `max_chars` characters.
    pub fn prompt_fragment(&self, max_chars: usize) -> (r: String)
        ensures
            r@ == take_at_most(context_prompt_text(*self), max_chars as nat),
    {
        let mut raw: Vec<char> = Vec::new();
        push_str(&mut raw, "App: ");
        push_str(&mut raw, self.app_name.as_str());
        push_str(&mut raw, "\nWindow: ");
        push_str(&mut raw, self.window_title.as_str());
        push_str(&mut raw, "\nFocused role: ");
        push_str(&mut raw, self.focused_role.as_str());
        push_str(&mut raw, "\nFocused field preview: ");
        push_str(&mut raw, self.focused_value_preview.as_str());
        push_str(&mut raw, "\nVisible screen text: ");
        push_str(&mut raw, self.visible_text.as_str());
        let cut = take_chars(&raw, max_chars);
        string_from_chars(&cut)
    }
}

/// A first transcription, pasted before any refinement.
#[derive(Debug, Clone)]
pub struct TranscriptDraft {
    pub raw_text: String,
    /// The engine's confidence, in hundredths.
    pub confidence_hint_percent: u8,
}

/// The text that stays in the document after refinement.
#[derive(Debug, Clone)]
pub struct FinalTranscript {
    pub text: String,
    pub was_refined: bool,
}

/// The application and element that receive the paste.
#[derive(Debug, Clone)]
pub struct FocusTarget {
    pub app_name: String,
    pub element_role: String,
}

/// Time spent in each stage of one dictation.
#[derive(Debug, Clone, Copy)]
pub struct LatencyReport {
    pub capture_ms: u64,
    pub transcription_ms: u64,
    pub refinement_ms: u64,
    pub paste_ms: u64,
}

pub open spec fn latency_text(r: LatencyReport) -> Seq<char> {
    "capture="@ + decimal(r.capture_ms as nat) + "ms transcription="@ + decimal(
        r.transcription_ms as nat,
    ) + "ms refinement="@ + decimal(r.refinement_ms as nat) + "ms paste="@ + decimal(
        r.paste_ms as nat,
    ) + "ms"@
}

impl LatencyReport {
    /// The one-line summary, e.g. `capture=900ms transcription=12ms refinement=3ms paste=8ms`.
    pub fn summary(&self) -> (r: String)
        ensures
            r@ == latency_text(*self),
    {
        let mut out: Vec<char> = Vec::new();
        push_str(&mut out, "capture=");
        push_chars(&mut out, &decimal_chars(self.capture_ms));
        push_str(&mut out, "ms transcription=");
        push_chars(&mut out, &decimal_chars(self.transcription_ms));
        push_str(&mut out, "ms refinement=");
        push_chars(&mut out, &decimal_chars(self.refinement_ms));
        push_str(&mut out, "ms paste=");
        push_chars(&mut out, &decimal_chars(self.paste_ms));
        push_str(&mut out, "ms");
        string_from_chars(&out)
    }
}

} // verus!
