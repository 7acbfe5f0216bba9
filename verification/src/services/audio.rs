//! Microphone capture: the capture interface, a demo capture, where the
//! speech lies in a recording, and the WAV file that is uploaded. Measuring
//! loudness works in floating point and is done by the program.
use vstd::prelude::*;

use crate::domain::AudioBuffer;
use crate::icon::bytes_view;
use crate::text::{chars_of, push_str, string_from_chars};

verus! {

/// Records audio between a key press and its release.
pub trait AudioCapture {
    fn begin_capture(&mut self) -> Result<(), String>;

    fn end_capture(&mut self) -> Result<AudioBuffer, String>;
}

/// A capture that pretends to record 900 ms of 16 kHz mono audio.
pub struct DemoAudioCapture {
    active: bool,
}

impl DemoAudioCapture {
    pub fn new() -> (c: DemoAudioCapture)
        ensures
            !c.is_active(),
    {
        DemoAudioCapture { active: false }
    }

    /// Whether a capture was begun and not yet ended.
    pub closed spec fn is_active(&self) -> bool {
        self.active
    }
}

impl AudioCapture for DemoAudioCapture {
    /// Starts a capture; an error when one is already running.
    fn begin_capture(&mut self) -> (r: Result<(), String>)
        ensures
            r is Ok <==> !old(self).is_active(),
            final(self).is_active(),
            r matches Err(e) ==> e@ == "audio capture already active"@,
    {
        if self.active {
            return Err(string_from_chars(&chars_of("audio capture already active")));
        }
        self.active = true;
        Ok(())
    }

    /// Ends a capture; an error when none is running.
    fn end_capture(&mut self) -> (r: Result<AudioBuffer, String>)
        ensures
            r is Ok <==> old(self).is_active(),
            !final(self).is_active(),
            r matches Err(e) ==> e@ == "audio capture was not active"@,
            r matches Ok(b) ==> b.pcm_frames == 14_400 && b.duration_ms == 900 && b.sample_rate_hz
                == 16_000 && b.channels == 1 && b.wav_bytes@.len() == 0,
    {
        if !self.active {
            return Err(string_from_chars(&chars_of("audio capture was not active")));
        }
        self.active = false;
        Ok(
            AudioBuffer {
                pcm_frames: 14_400,
                duration_ms: 900,
                sample_rate_hz: 16_000,
                channels: 1,
                wav_bytes: Vec::new(),
            },
        )
    }
}

// ───────────────────────── choosing the input ─────────────────────────

/// Which of a device's supported input configurations to record with, given
/// their channel counts in the order the device lists them: the first mono
/// one; none when no configuration is mono (the device default is used).
pub fn preferred_input_config(channel_counts: &Vec<u16>) -> (r: Option<usize>)
    ensures
        match r {
            Some(i) => i < channel_counts@.len() && channel_counts@[i as int] == 1 && forall|j: int|
                0 <= j < i ==> channel_counts@[j] != 1,
            None => forall|j: int| 0 <= j < channel_counts@.len() ==> channel_counts@[j] != 1,
        },
{
    let mut i: usize = 0;
    while i < channel_counts.len()
        invariant
            i <= channel_counts@.len(),
            forall|j: int| 0 <= j < i ==> channel_counts@[j] != 1,
        decreases channel_counts@.len() - i,
    {
        if channel_counts[i] == 1 {
            return Some(i);
        }
        i += 1;
    }
    None
}

// ───────────────────────── where the speech is ─────────────────────────

/// The index of the first voiced window, or -1.
pub open spec fn first_voiced(s: Seq<bool>) -> int
    decreases s.len(),
{
    if s.len() == 0 {
        -1
    } else if s[0] {
        0
    } else {
        let r = first_voiced(s.drop_first());
        if r < 0 {
            -1
        } else {
            r + 1
        }
    }
}

/// The index of the last voiced window, or -1.
pub open spec fn last_voiced(s: Seq<bool>) -> int
    decreases s.len(),
{
    if s.len() == 0 {
        -1
    } else if s.last() {
        s.len() - 1
    } else {
        last_voiced(s.drop_last())
    }
}

/// The part of a recording of `len` samples to keep, cut into windows of
/// `window` samples of which `voiced` tells which are loud enough: from
/// `padding` samples before the first voiced window to `padding` samples
/// after the last one, within the recording; none when no window is voiced.
pub open spec fn speech_span_spec(voiced: Seq<bool>, window: nat, len: nat, padding: nat) -> Option<(nat, nat)> {
    let f = first_voiced(voiced);
    let l = last_voiced(voiced);
    if f < 0 {
        None
    } else {
        let start = f * window;
        let end = if (l + 1) * window < len {
            (l + 1) * window
        } else {
            len as int
        };
        Some((
            if start >= padding {
                (start - padding) as nat
            } else {
                0nat
            },
            if end + padding < len {
                (end + padding) as nat
            } else {
                len
            },
        ))
    }
}

proof fn lemma_first_voiced_push(s: Seq<bool>, b: bool)
    ensures
        first_voiced(s.push(b)) == if first_voiced(s) >= 0 {
            first_voiced(s)
        } else if b {
            s.len() as int
        } else {
            -1
        },
        -1 <= first_voiced(s) < s.len(),
        first_voiced(s) >= 0 ==> s[first_voiced(s)],
    decreases s.len(),
{
    if s.len() > 0 {
        lemma_first_voiced_push(s.drop_first(), b);
        assert(s.push(b).drop_first() =~= s.drop_first().push(b));
        assert(s.push(b)[0] == s[0]);
        assert(s.drop_first().len() + 1 == s.len());
        if !s[0] {
            assert(first_voiced(s.push(b)) == (if first_voiced(s.drop_first().push(b)) < 0 {
                -1
            } else {
                first_voiced(s.drop_first().push(b)) + 1
            }));
        }
    } else {
        assert(s.push(b).drop_first() =~= Seq::<bool>::empty());
        assert(first_voiced(Seq::<bool>::empty()) == -1);
        assert(s.push(b)[0] == b);
        assert(first_voiced(s.push(b)) == if b { 0 } else { -1 });
    }
}

proof fn lemma_last_voiced_bounds(s: Seq<bool>)
    ensures
        -1 <= last_voiced(s) < s.len(),
        last_voiced(s) >= 0 ==> first_voiced(s) >= 0 && first_voiced(s) <= last_voiced(s),
        last_voiced(s) < 0 ==> first_voiced(s) < 0,
    decreases s.len(),
{
    if s.len() > 0 {
        lemma_last_voiced_bounds(s.drop_last());
        lemma_first_voiced_push(s.drop_last(), s.last());
        assert(s.drop_last().push(s.last()) =~= s);
    }
}

proof fn lemma_first_voiced_is_first(s: Seq<bool>)
    ensures
        -1 <= first_voiced(s) < s.len(),
        first_voiced(s) >= 0 ==> s[first_voiced(s)],
        forall|j: int| 0 <= j < s.len() && (first_voiced(s) < 0 || j < first_voiced(s)) ==> !s[j],
    decreases s.len(),
{
    if s.len() > 0 && !s[0] {
        let t = s.drop_first();
        lemma_first_voiced_is_first(t);
        assert forall|j: int| 1 <= j < s.len() implies s[j] == t[j - 1] by {}
    }
}

proof fn lemma_last_voiced_is_last(s: Seq<bool>)
    ensures
        -1 <= last_voiced(s) < s.len(),
        last_voiced(s) >= 0 ==> s[last_voiced(s)],
        forall|j: int| 0 <= j < s.len() && last_voiced(s) < j ==> !s[j],
    decreases s.len(),
{
    if s.len() > 0 && !s.last() {
        let t = s.drop_last();
        lemma_last_voiced_is_last(t);
        assert forall|j: int| 0 <= j < t.len() implies s[j] == t[j] by {}
    }
}

/// The kept span runs from the first voiced window to the last one, widened
/// by `padding` samples on each side and held within the recording; with no
/// voiced window nothing is kept.
pub proof fn lemma_speech_span_first_to_last(voiced: Seq<bool>, window: nat, len: nat, padding: nat)
    ensures
        (forall|j: int| 0 <= j < voiced.len() ==> !#[trigger] voiced[j])
            <==> speech_span_spec(voiced, window, len, padding).is_none(),
        forall|f: int, l: int|
            0 <= f <= l < voiced.len() && #[trigger] voiced[f] && #[trigger] voiced[l]
                && (forall|j: int| 0 <= j < f ==> !voiced[j])
                && (forall|j: int| l < j < voiced.len() ==> !voiced[j])
                ==> speech_span_spec(voiced, window, len, padding) == Some((
                    if f * window >= padding { (f * window - padding) as nat } else { 0nat },
                    if (if (l + 1) * window < len { (l + 1) * window } else { len as int }) + padding < len {
                        ((l + 1) * window + padding) as nat
                    } else {
                        len
                    },
                )),
{
    lemma_first_voiced_is_first(voiced);
    lemma_last_voiced_is_last(voiced);
    let fv = first_voiced(voiced);
    let lv = last_voiced(voiced);
    if fv >= 0 {
        assert(voiced[fv]);
    }
    assert forall|f: int, l: int|
        0 <= f <= l < voiced.len() && #[trigger] voiced[f] && #[trigger] voiced[l]
            && (forall|j: int| 0 <= j < f ==> !voiced[j])
            && (forall|j: int| l < j < voiced.len() ==> !voiced[j])
        implies f == fv && l == lv by {
        assert(fv >= 0);
        assert(lv >= 0);
        assert(voiced[fv] && voiced[lv]);
    }
}

/// Where the speech lies in a recording of `len` samples; see
/// `speech_span_spec`.
pub fn speech_span(voiced: &Vec<bool>, window: usize, len: usize, padding: usize) -> (r: Option<(usize, usize)>)
    requires
        window > 0,
        voiced@.len() * window <= len + window,
    ensures
        match (r, speech_span_spec(voiced@, window as nat, len as nat, padding as nat)) {
            (Some((a, b)), Some((x, y))) => a == x && b == y,
            (None, None) => true,
            _ => false,
        },
{
    let n = voiced.len();
    let mut first: Option<usize> = None;
    let mut last: usize = 0;
    let mut i: usize = 0;
    while i < n
        invariant
            i <= n == voiced@.len(),
            match first {
                Some(f) => first_voiced(voiced@.take(i as int)) == f && last_voiced(voiced@.take(i as int))
                    == last,
                None => first_voiced(voiced@.take(i as int)) == -1 && last_voiced(voiced@.take(i as int))
                    == -1,
            },
        decreases n - i,
    {
        proof {
            lemma_first_voiced_push(voiced@.take(i as int), voiced@[i as int]);
            lemma_last_voiced_bounds(voiced@.take(i as int));
            assert(voiced@.take(i + 1) =~= voiced@.take(i as int).push(voiced@[i as int]));
            assert(voiced@.take(i + 1).drop_last() =~= voiced@.take(i as int));
        }
        if voiced[i] {
            if first.is_none() {
                first = Some(i);
            }
            last = i;
        }
        i += 1;
    }
    proof {
        assert(voiced@.take(n as int) =~= voiced@);
        lemma_last_voiced_bounds(voiced@);
    }
    match first {
        None => None,
        Some(f) => {
            proof {
                assert(f <= last < n);
                vstd::arithmetic::mul::lemma_mul_inequality(f as int, last as int, window as int);
                vstd::arithmetic::mul::lemma_mul_inequality(last as int + 1, n as int, window as int);
                assert((last as int + 1) * window == last * window + window) by (nonlinear_arith);
                assert(n * window <= len + window);
                assert(last * window <= len);
            }
            let start = f * window;
            let end = if len - last * window > window {
                last * window + window
            } else {
                len
            };
            let from = if start >= padding {
                start - padding
            } else {
                0
            };
            let to = if len - end > padding {
                end + padding
            } else {
                len
            };
            Some((from, to))
        },
    }
}

// ───────────────────────── the uploaded file ─────────────────────────

/// At most this many samples go into one WAV file.
pub const MAX_WAV_SAMPLES: usize = 0x7FFF_0000;

/// The step of writing a WAV file at which `hound` reported an error.
#[derive(Debug, Clone, Copy, PartialEq, Eq, Structural)]
pub enum WavStep {
    CreateWriter,
    WriteSample,
    Finalize,
}

/// A WAV outcome as plain values: the bytes, or the failing step and
/// `hound`'s error message.
pub open spec fn wav_view(r: Result<Vec<u8>, (WavStep, String)>) -> Result<Seq<u8>, (WavStep, Seq<char>)> {
    match r {
        Ok(v) => Ok(v@),
        Err((step, e)) => Err((step, e@)),
    }
}

/// The bytes that `hound` writes for these 16-bit integer samples as a WAV
/// file with this many channels and this sample rate, or the step that
/// failed and its error message.
pub uninterp spec fn wav_file(pcm: Seq<i16>, channels: u16, sample_rate: u32) -> Result<Seq<u8>, (WavStep, Seq<char>)>;

/// Writes 16-bit integer samples as a WAV file in memory with
/// `hound::WavWriter` (`new`, one `write_sample` per sample, `finalize`).
/// The contract claims only that the outcome is hound's encoding of these
/// samples with this layout; the bytes themselves are not stated. The
/// header holds the byte rate `sample_rate * 2 * channels` in a `u32` and
/// divides it by the sample rate, hence the bounds.
#[verifier::external_body]
fn write_wav(pcm: &[i16], channels: u16, sample_rate: u32) -> (r: Result<Vec<u8>, (WavStep, String)>)
    requires
        channels > 0,
        sample_rate > 0,
        sample_rate as int * 2 * channels as int <= u32::MAX,
        pcm@.len() <= MAX_WAV_SAMPLES,
    ensures
        wav_view(r) == wav_file(pcm@, channels, sample_rate),
{
    let spec = hound::WavSpec { channels, sample_rate, bits_per_sample: 16, sample_format: hound::SampleFormat::Int };
    let mut cursor = std::io::Cursor::new(Vec::new());
    let mut writer = hound::WavWriter::new(&mut cursor, spec).map_err(|e| (WavStep::CreateWriter, e.to_string()))?;
    for sample in pcm {
        writer.write_sample(*sample).map_err(|e| (WavStep::WriteSample, e.to_string()))?;
    }
    writer.finalize().map_err(|e| (WavStep::Finalize, e.to_string()))?;
    Ok(cursor.into_inner())
}

/// What went wrong at each step of writing a WAV file.
pub open spec fn wav_error_prefix(step: WavStep) -> Seq<char> {
    match step {
        WavStep::CreateWriter => "failed to create wav writer: "@,
        WavStep::WriteSample => "failed to write wav sample: "@,
        WavStep::Finalize => "failed to finalize wav writer: "@,
    }
}

/// 16-bit mono samples at `sample_rate_hz` as the bytes of a WAV file.
pub fn encode_wav_in_memory(pcm: &[i16], sample_rate_hz: u32) -> (r: Result<Vec<u8>, String>)
    requires
        pcm@.len() <= MAX_WAV_SAMPLES,
        sample_rate_hz > 0,
        sample_rate_hz as int * 2 <= u32::MAX,
    ensures
        bytes_view(r) == match wav_file(pcm@, 1, sample_rate_hz) {
            Ok(b) => Ok(b),
            Err((step, e)) => Err(wav_error_prefix(step) + e),
        },
{
    match write_wav(pcm, 1, sample_rate_hz) {
        Ok(b) => Ok(b),
        Err((step, e)) => {
            let mut out: Vec<char> = Vec::new();
            match step {
                WavStep::CreateWriter => push_str(&mut out, "failed to create wav writer: "),
                WavStep::WriteSample => push_str(&mut out, "failed to write wav sample: "),
                WavStep::Finalize => push_str(&mut out, "failed to finalize wav writer: "),
            }
            push_str(&mut out, e.as_str());
            Err(string_from_chars(&out))
        },
    }
}

} // verus!
