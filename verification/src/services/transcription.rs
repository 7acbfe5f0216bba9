//! Speech-to-text: the engine interface, a demo engine, and the request
//! pieces (prompt, endpoint, settings) of the hosted Whisper engine.
use vstd::prelude::*;

use crate::domain::{take_at_most, AudioBuffer, ScreenContext, TranscriptDraft};
use crate::services::vocab::string_views;
use crate::text::{
    char_len_utf8, char_pred, chars_of, lemma_utf8_len_concat, lemma_utf8_len_take_mono,
    push_chars, push_str, slice_chars, string_from_chars, trim_end_by, trim_whitespace, trim_ws,
    utf8_len,
};

verus! {

/// Turns captured audio into a first transcript.
pub trait TranscriptionEngine {
    fn transcribe(
        &self,
        audio: &AudioBuffer,
        screen_context: &ScreenContext,
        vocabulary: &[String],
    ) -> Result<TranscriptDraft, String>;
}

/// Whisper's prompt holds 896 bytes; this much is spent on it.
pub const MAX_PROMPT_BYTES: usize = 800;

// ───────────────────────── byte-limited text ─────────────────────────

/// The length of the longest prefix of `s` whose UTF-8 encoding fits in
/// `max` bytes.
pub open spec fn fitting_prefix_len(s: Seq<char>, max: nat) -> nat
    decreases s.len(),
{
    if utf8_len(s) <= max || s.len() == 0 {
        s.len()
    } else {
        fitting_prefix_len(s.drop_last(), max)
    }
}

/// `s` cut at the last character boundary within `max` bytes.
pub open spec fn truncate_bytes(s: Seq<char>, max: nat) -> Seq<char> {
    s.take(fitting_prefix_len(s, max) as int)
}

proof fn lemma_fitting_prefix_len(s: Seq<char>, max: nat, k: int)
    requires
        0 <= k <= s.len(),
        utf8_len(s.take(k)) <= max,
        k == s.len() || utf8_len(s.take(k + 1)) > max,
    ensures
        fitting_prefix_len(s, max) == k,
    decreases s.len(),
{
    if k == s.len() {
        assert(s.take(k) =~= s);
    } else {
        assert(s.len() > 0);
        lemma_utf8_len_take_mono(s, k + 1, s.len() as int);
        assert(s.take(s.len() as int) =~= s);
        assert(utf8_len(s) > max);
        let d = s.drop_last();
        assert(d.take(k) =~= s.take(k));
        if k < d.len() {
            assert(d.take(k + 1) =~= s.take(k + 1));
        }
        lemma_fitting_prefix_len(d, max, k);
    }
}

/// `min(utf8_len(v), cap)`, without overflow.
fn utf8_len_capped(v: &Vec<char>, cap: usize) -> (n: usize)
    requires
        0 < cap < usize::MAX - 4,
    ensures
        n == if utf8_len(v@) < cap {
            utf8_len(v@)
        } else {
            cap as nat
        },
{
    let mut n: usize = 0;
    let mut i: usize = 0;
    while i < v.len()
        invariant
            i <= v.len(),
            0 < cap < usize::MAX - 4,
            n == utf8_len(v@.take(i as int)),
            n < cap,
        decreases v.len() - i,
    {
        assert(v@.take(i + 1).drop_last() =~= v@.take(i as int));
        let w = char_len_utf8(v[i]);
        if n + w >= cap {
            proof {
                lemma_utf8_len_take_mono(v@, i + 1, v@.len() as int);
                assert(v@.take(v@.len() as int) =~= v@);
            }
            return cap;
        }
        n = n + w;
        i += 1;
    }
    assert(v@.take(v.len() as int) =~= v@);
    n
}

/// Truncate to at most `max_bytes` of UTF-8, cutting at a character
/// boundary.
pub fn truncate_to_byte_limit(v: &Vec<char>, max_bytes: usize) -> (r: Vec<char>)
    ensures
        r@ == truncate_bytes(v@, max_bytes as nat),
{
    let mut n: usize = 0;
    let mut k: usize = 0;
    while k < v.len() && char_len_utf8(v[k]) <= max_bytes - n
        invariant
            k <= v.len(),
            n == utf8_len(v@.take(k as int)),
            n <= max_bytes,
        decreases v.len() - k,
    {
        assert(v@.take(k + 1).drop_last() =~= v@.take(k as int));
        n = n + char_len_utf8(v[k]);
        k += 1;
    }
    proof {
        if k < v.len() {
            assert(v@.take(k + 1).drop_last() =~= v@.take(k as int));
            assert(v@.take(k + 1).last() == v@[k as int]);
        }
        lemma_fitting_prefix_len(v@, max_bytes as nat, k as int);
    }
    slice_chars(v, 0, k)
}

/// The cut text is a prefix of the text and fits in the byte budget.
pub proof fn lemma_truncate_bytes_fits(s: Seq<char>, max: nat)
    ensures
        fitting_prefix_len(s, max) <= s.len(),
        truncate_bytes(s, max) == s.take(fitting_prefix_len(s, max) as int),
        utf8_len(truncate_bytes(s, max)) <= max,
    decreases s.len(),
{
    if utf8_len(s) <= max || s.len() == 0 {
        assert(s.take(s.len() as int) =~= s);
    } else {
        let d = s.drop_last();
        lemma_truncate_bytes_fits(d, max);
        let k = fitting_prefix_len(d, max);
        assert(d.take(k as int) =~= s.take(k as int));
    }
}

/// The cut is at the largest character boundary within the budget: the
/// kept prefix fits in `max` bytes, and every longer prefix does not.
pub proof fn lemma_truncate_bytes_largest_boundary(s: Seq<char>, max: nat)
    ensures
        truncate_bytes(s, max) == s.take(fitting_prefix_len(s, max) as int),
        fitting_prefix_len(s, max) <= s.len(),
        utf8_len(truncate_bytes(s, max)) <= max,
        forall|k: int| fitting_prefix_len(s, max) < k <= s.len() ==> utf8_len(#[trigger] s.take(k)) > max,
    decreases s.len(),
{
    lemma_truncate_bytes_fits(s, max);
    if !(utf8_len(s) <= max || s.len() == 0) {
        let d = s.drop_last();
        lemma_truncate_bytes_largest_boundary(d, max);
        assert(s.take(s.len() as int) =~= s);
        assert forall|k: int| fitting_prefix_len(s, max) < k <= s.len() implies utf8_len(#[trigger] s.take(k)) > max by {
            if k < s.len() {
                assert(d.take(k) =~= s.take(k));
            }
        }
    }
}

// ───────────────────────── the transcription prompt ─────────────────────────

pub open spec fn prompt_header(c: ScreenContext) -> Seq<char> {
    "App: "@ + c.app_name@ + ". Window: "@ + c.window_title@ + "."@
}

/// Appends terms (`", "` between them) while the text, the term and a final
/// period still fit in `MAX_PROMPT_BYTES`; stops at the first that does not.
pub open spec fn pack_terms(out: Seq<char>, terms: Seq<Seq<char>>, first: bool) -> Seq<char>
    decreases terms.len(),
{
    if terms.len() == 0 {
        out
    } else {
        let candidate = if first {
            terms[0]
        } else {
            ", "@ + terms[0]
        };
        if utf8_len(out) + utf8_len(candidate) + 1 > MAX_PROMPT_BYTES {
            out
        } else {
            pack_terms(out + candidate, terms.drop_first(), false)
        }
    }
}

/// The Whisper biasing prompt: the app and window, then as many vocabulary
/// terms as fit, all within `MAX_PROMPT_BYTES`.
pub open spec fn transcription_prompt(c: ScreenContext, vocabulary: Seq<Seq<char>>) -> Seq<char> {
    let header = prompt_header(c);
    if vocabulary.len() == 0 {
        truncate_bytes(header, MAX_PROMPT_BYTES as nat)
    } else {
        let base = header + " Vocabulary: "@;
        let packed = pack_terms(base, vocabulary, true);
        truncate_bytes(
            if packed == base {
                header
            } else {
                packed.push('.')
            },
            MAX_PROMPT_BYTES as nat,
        )
    }
}

/// Whatever the context and however many terms there are, the prompt
/// fits in `MAX_PROMPT_BYTES` bytes of UTF-8.
pub proof fn lemma_prompt_within_budget(c: ScreenContext, vocabulary: Seq<Seq<char>>)
    ensures
        utf8_len(transcription_prompt(c, vocabulary)) <= MAX_PROMPT_BYTES,
{
    let header = prompt_header(c);
    if vocabulary.len() == 0 {
        lemma_truncate_bytes_fits(header, MAX_PROMPT_BYTES as nat);
    } else {
        let base = header + " Vocabulary: "@;
        let packed = pack_terms(base, vocabulary, true);
        lemma_truncate_bytes_fits(
            if packed == base {
                header
            } else {
                packed.push('.')
            },
            MAX_PROMPT_BYTES as nat,
        );
    }
}

proof fn lemma_pack_extends(out: Seq<char>, terms: Seq<Seq<char>>, first: bool)
    ensures
        pack_terms(out, terms, first).len() >= out.len(),
        pack_terms(out, terms, first).take(out.len() as int) == out,
    decreases terms.len(),
{
    if terms.len() > 0 {
        let candidate = if first {
            terms[0]
        } else {
            ", "@ + terms[0]
        };
        if utf8_len(out) + utf8_len(candidate) + 1 <= MAX_PROMPT_BYTES {
            lemma_pack_extends(out + candidate, terms.drop_first(), false);
            let p = pack_terms(out + candidate, terms.drop_first(), false);
            assert(p.take((out + candidate).len() as int).take(out.len() as int) =~= p.take(
                out.len() as int,
            ));
            assert((out + candidate).take(out.len() as int) =~= out);
        }
    } else {
        assert(out.take(out.len() as int) =~= out);
    }
}

/// Terms joined with `", "` between them.
pub open spec fn joined_terms(ts: Seq<Seq<char>>) -> Seq<char>
    decreases ts.len(),
{
    if ts.len() == 0 {
        seq![]
    } else if ts.len() == 1 {
        ts[0]
    } else {
        joined_terms(ts.drop_last()) + ", "@ + ts.last()
    }
}

/// The header and the first `k` vocabulary terms, before the final period.
pub open spec fn packed_prefix(c: ScreenContext, vocabulary: Seq<Seq<char>>, k: nat) -> Seq<char> {
    prompt_header(c) + " Vocabulary: "@ + joined_terms(vocabulary.take(k as int))
}

/// The prompt that lists the first `k` vocabulary terms.
pub open spec fn prompt_with_terms(c: ScreenContext, vocabulary: Seq<Seq<char>>, k: nat) -> Seq<char> {
    packed_prefix(c, vocabulary, k).push('.')
}

proof fn lemma_packed_prefix_step(c: ScreenContext, v: Seq<Seq<char>>, j: nat)
    requires
        j < v.len(),
    ensures
        packed_prefix(c, v, j + 1) == packed_prefix(c, v, j) + (if j == 0 {
            v[j as int]
        } else {
            ", "@ + v[j as int]
        }),
        utf8_len(packed_prefix(c, v, j + 1)) >= utf8_len(packed_prefix(c, v, j)),
{
    let t = v.take(j as int + 1);
    assert(t.drop_last() =~= v.take(j as int));
    assert(t.last() == v[j as int]);
    let cand = if j == 0 {
        v[j as int]
    } else {
        ", "@ + v[j as int]
    };
    if j == 0 {
        assert(joined_terms(v.take(0)) =~= seq![]);
    }
    assert(packed_prefix(c, v, j + 1) =~= packed_prefix(c, v, j) + cand);
    lemma_utf8_len_concat(packed_prefix(c, v, j), cand);
}

proof fn lemma_utf8_len_push_period(s: Seq<char>)
    ensures
        utf8_len(s.push('.')) == utf8_len(s) + 1,
{
    assert(s.push('.').drop_last() =~= s);
    assert(('.' as u32) < 0x80);
}

proof fn lemma_packed_prefix_mono(c: ScreenContext, v: Seq<Seq<char>>, i: nat, k: nat)
    requires
        i <= k <= v.len(),
    ensures
        utf8_len(packed_prefix(c, v, i)) <= utf8_len(packed_prefix(c, v, k)),
    decreases k - i,
{
    if i < k {
        lemma_packed_prefix_step(c, v, i);
        lemma_packed_prefix_mono(c, v, (i + 1) as nat, k);
    }
}

proof fn lemma_pack_terms_stops_at(c: ScreenContext, v: Seq<Seq<char>>, j: nat, k: nat)
    requires
        j <= k <= v.len(),
        forall|i: nat| j < i <= k ==> utf8_len(#[trigger] packed_prefix(c, v, i)) + 1 <= MAX_PROMPT_BYTES,
        k == v.len() || utf8_len(packed_prefix(c, v, k + 1)) + 1 > MAX_PROMPT_BYTES,
    ensures
        pack_terms(packed_prefix(c, v, j), v.skip(j as int), j == 0) == packed_prefix(c, v, k),
    decreases v.len() - j,
{
    if j < v.len() {
        let terms = v.skip(j as int);
        assert(terms[0] == v[j as int]);
        assert(terms.drop_first() =~= v.skip(j as int + 1));
        lemma_packed_prefix_step(c, v, j);
        let cand = if j == 0 {
            v[j as int]
        } else {
            ", "@ + v[j as int]
        };
        lemma_utf8_len_concat(packed_prefix(c, v, j), cand);
        if j < k {
            assert(utf8_len(packed_prefix(c, v, (j + 1) as nat)) + 1 <= MAX_PROMPT_BYTES);
            lemma_pack_terms_stops_at(c, v, (j + 1) as nat, k);
        }
    }
}

/// The prompt packs the longest prefix of the vocabulary that fits: when
/// `k` terms make the largest prompt within `MAX_PROMPT_BYTES` (and `k` is
/// 0 when not even one fits), the prompt lists exactly those `k` terms, and
/// with none it is the header alone, cut to the budget.
pub proof fn lemma_prompt_packs_longest_prefix(c: ScreenContext, vocabulary: Seq<Seq<char>>, k: nat)
    requires
        forall|i: int| 0 <= i < vocabulary.len() ==> (#[trigger] vocabulary[i]).len() > 0,
        k <= vocabulary.len(),
        k >= 1 ==> utf8_len(prompt_with_terms(c, vocabulary, k)) <= MAX_PROMPT_BYTES,
        forall|i: nat|
            k < i <= vocabulary.len() ==> utf8_len(#[trigger] prompt_with_terms(c, vocabulary, i))
                > MAX_PROMPT_BYTES,
    ensures
        transcription_prompt(c, vocabulary) == if k == 0 {
            truncate_bytes(prompt_header(c), MAX_PROMPT_BYTES as nat)
        } else {
            prompt_with_terms(c, vocabulary, k)
        },
{
    let v = vocabulary;
    assert forall|i: nat| 0 < i <= k implies utf8_len(#[trigger] packed_prefix(c, v, i)) + 1
        <= MAX_PROMPT_BYTES by {
        lemma_packed_prefix_mono(c, v, i, k);
        lemma_utf8_len_push_period(packed_prefix(c, v, k));
    }
    if k < v.len() {
        lemma_utf8_len_push_period(packed_prefix(c, v, k + 1));
        assert(utf8_len(prompt_with_terms(c, v, k + 1)) > MAX_PROMPT_BYTES);
    }
    lemma_pack_terms_stops_at(c, v, 0, k);
    let base = prompt_header(c) + " Vocabulary: "@;
    assert(v.skip(0) =~= v);
    assert(joined_terms(v.take(0)) =~= seq![]);
    assert(packed_prefix(c, v, 0) =~= base);
    if v.len() > 0 {
        let packed = pack_terms(base, v, true);
        assert(packed == packed_prefix(c, v, k));
        if k >= 1 {
            let t = v.take(k as int);
            assert(t.last() == v[k - 1]);
            assert(joined_terms(t).len() > 0);
            assert(packed.len() > base.len());
            let full = prompt_with_terms(c, v, k);
            assert(fitting_prefix_len(full, MAX_PROMPT_BYTES as nat) == full.len());
            assert(full.take(full.len() as int) =~= full);
        } else {
            assert(packed =~= base);
        }
    }
}

/// Builds the Whisper prompt from the screen context and the vocabulary.
pub fn build_transcription_prompt(screen_context: &ScreenContext, vocabulary: &[String]) -> (r:
    String)
    ensures
        r@ == transcription_prompt(*screen_context, string_views(vocabulary@)),
{
    let ghost vs = string_views(vocabulary@);
    let mut header: Vec<char> = Vec::new();
    push_str(&mut header, "App: ");
    push_str(&mut header, screen_context.app_name.as_str());
    push_str(&mut header, ". Window: ");
    push_str(&mut header, screen_context.window_title.as_str());
    push_str(&mut header, ".");
    assert(header@ == prompt_header(*screen_context));
    if vocabulary.len() == 0 {
        let cut = truncate_to_byte_limit(&header, MAX_PROMPT_BYTES);
        return string_from_chars(&cut);
    }
    let mut out: Vec<char> = slice_chars(&header, 0, header.len());
    assert(out@ =~= header@);
    push_str(&mut out, " Vocabulary: ");
    let ghost base = out@;
    let base_len = out.len();
    let mut first = true;
    let mut i: usize = 0;
    let mut done = false;
    assert(vs.skip(0) =~= vs);
    while i < vocabulary.len() && !done
        invariant
            i <= vocabulary@.len(),
            vs == string_views(vocabulary@),
            !done ==> pack_terms(base, vs, true) == pack_terms(out@, vs.skip(i as int), first),
            done ==> pack_terms(base, vs, true) == out@,
        decreases vocabulary@.len() - i + (if done { 0int } else { 1int }),
    {
        let term = chars_of(vocabulary[i].as_str());
        assert(vs.skip(i as int)[0] == term@);
        assert(vs.skip(i as int).drop_first() =~= vs.skip(i + 1));
        let mut candidate: Vec<char> = Vec::new();
        if !first {
            push_str(&mut candidate, ", ");
        }
        push_chars(&mut candidate, &term);
        assert(candidate@ == if first {
            vs.skip(i as int)[0]
        } else {
            ", "@ + vs.skip(i as int)[0]
        });
        let out_len = utf8_len_capped(&out, MAX_PROMPT_BYTES + 1);
        let cand_len = utf8_len_capped(&candidate, MAX_PROMPT_BYTES + 1);
        if out_len + cand_len + 1 > MAX_PROMPT_BYTES {
            done = true;
        } else {
            push_chars(&mut out, &candidate);
            first = false;
            i += 1;
        }
    }
    let ghost packed = pack_terms(base, vs, true);
    proof {
        if !done {
            assert(vs.skip(i as int).len() == 0);
        }
        lemma_pack_extends(base, vs, true);
    }
    assert(packed == out@);
    let nothing_fit = out.len() == base_len;
    proof {
        if nothing_fit {
            assert(packed =~= base);
        } else {
            assert(packed != base);
        }
    }
    let text = if nothing_fit {
        header
    } else {
        out.push('.');
        out
    };
    let cut = truncate_to_byte_limit(&text, MAX_PROMPT_BYTES);
    string_from_chars(&cut)
}

// ───────────────────────── request pieces ─────────────────────────

/// The error for a request that the API answered with a failure status:
/// which request, the status line, and the body of the answer.
pub open spec fn request_failed_text(what: Seq<char>, status: Seq<char>, body: Seq<char>) -> Seq<char> {
    what + " request failed with "@ + status + ": "@ + body
}

pub fn request_failed_message(what: &str, status: &str, body: &str) -> (r: String)
    ensures
        r@ == request_failed_text(what@, status@, body@),
{
    let mut out: Vec<char> = Vec::new();
    push_str(&mut out, what);
    push_str(&mut out, " request failed with ");
    push_str(&mut out, status);
    push_str(&mut out, ": ");
    push_str(&mut out, body);
    string_from_chars(&out)
}

/// `base` without its trailing slashes, followed by `path`.
pub open spec fn endpoint_spec(base: Seq<char>, path: Seq<char>) -> Seq<char> {
    trim_end_by(base, char_pred('/')) + path
}

/// The URL of an API path under a base URL that may end with slashes.
pub fn endpoint_url(base_url: &str, path: &str) -> (r: String)
    ensures
        r@ == endpoint_spec(base_url@, path@),
{
    let v = chars_of(base_url);
    let mut end = v.len();
    assert(v@.take(end as int) =~= v@);
    while end > 0 && v[end - 1] == '/'
        invariant
            end <= v.len(),
            trim_end_by(v@, char_pred('/')) == trim_end_by(v@.take(end as int), char_pred('/')),
        decreases end,
    {
        assert(v@.take(end as int).drop_last() =~= v@.take(end - 1));
        assert(v@.take(end as int).last() == '/');
        end -= 1;
    }
    let mut out = slice_chars(&v, 0, end);
    assert(out@ =~= v@.take(end as int));
    assert(end == 0 || v@.take(end as int).last() != '/');
    assert(trim_end_by(v@.take(end as int), char_pred('/')) == v@.take(end as int));
    push_str(&mut out, path);
    string_from_chars(&out)
}

/// Settings of the hosted transcription engine.
pub struct TranscriptionSettings {
    pub api_key: String,
    pub model: String,
    pub language: Option<String>,
    pub base_url: String,
}

pub open spec fn missing_key_message() -> Seq<char> {
    "missing GROQ_API_KEY in the environment or .env file"@
}

pub open spec fn default_api_base() -> Seq<char> {
    "https://api.groq.com/openai/v1"@
}

pub open spec fn or_default(v: Option<String>, d: Seq<char>) -> Seq<char> {
    match v {
        Some(s) => s@,
        None => d,
    }
}

pub fn string_or(v: Option<String>, d: &str) -> (r: String)
    ensures
        r@ == or_default(v, d@),
{
    match v {
        Some(s) => s,
        None => string_from_chars(&chars_of(d)),
    }
}

impl TranscriptionSettings {
    /// Settings from the environment's values (`None` where a variable is
    /// unset): the API key is required; the model defaults to
    /// `whisper-large-v3-turbo` and the base URL to Groq's.
    pub fn from_env_values(
        api_key: Option<String>,
        model: Option<String>,
        language: Option<String>,
        base_url: Option<String>,
    ) -> (r: Result<TranscriptionSettings, String>)
        ensures
            match r {
                Ok(s) => api_key is Some && s.api_key@ == api_key->0@ && s.model@ == or_default(
                    model,
                    "whisper-large-v3-turbo"@,
                ) && s.language == language && s.base_url@ == or_default(
                    base_url,
                    default_api_base(),
                ),
                Err(e) => api_key is None && e@ == missing_key_message(),
            },
    {
        match api_key {
            None => Err(string_from_chars(&chars_of("missing GROQ_API_KEY in the environment or .env file"))),
            Some(key) => Ok(
                TranscriptionSettings {
                    api_key: key,
                    model: string_or(model, "whisper-large-v3-turbo"),
                    language,
                    base_url: string_or(base_url, "https://api.groq.com/openai/v1"),
                },
            ),
        }
    }

    /// Where transcription requests go.
    pub fn transcriptions_url(&self) -> (r: String)
        ensures
            r@ == endpoint_spec(self.base_url@, "/audio/transcriptions"@),
    {
        endpoint_url(self.base_url.as_str(), "/audio/transcriptions")
    }
}

/// Audio must not be empty to be sent.
pub fn check_audio(audio: &AudioBuffer) -> (r: Result<(), String>)
    ensures
        r is Ok <==> audio.wav_bytes@.len() > 0,
        r matches Err(e) ==> e@ == "captured audio buffer is empty"@,
{
    if audio.wav_bytes.len() == 0 {
        Err(string_from_chars(&chars_of("captured audio buffer is empty")))
    } else {
        Ok(())
    }
}

/// The draft made from the engine's reply text: trimmed, and an error when
/// nothing is left.
pub fn draft_from_response(text: &str) -> (r: Result<TranscriptDraft, String>)
    ensures
        match r {
            Ok(d) => trim_ws(text@).len() > 0 && d.raw_text@ == trim_ws(text@) && d.confidence_hint_percent == 90,
            Err(e) => trim_ws(text@).len() == 0 && e@ == "transcription response was empty"@,
        },
{
    let t = trim_whitespace(&chars_of(text));
    if t.len() == 0 {
        Err(string_from_chars(&chars_of("transcription response was empty")))
    } else {
        Ok(TranscriptDraft { raw_text: string_from_chars(&t), confidence_hint_percent: 90 })
    }
}

// ───────────────────────── the demo engine ─────────────────────────

/// An engine that makes up a transcript from the screen context.
pub struct DemoTranscriptionEngine;

pub open spec fn demo_transcript_text(audio: AudioBuffer, c: ScreenContext) -> Seq<char> {
    let bias = if audio.duration_ms < 1500 {
        "Ship the latency fixes today"@
    } else {
        "Ship the latency fixes today and review the accessibility path"@
    };
    bias + " ["@ + take_at_most(crate::domain::context_prompt_text(c), 90) + "]"@
}

impl TranscriptionEngine for DemoTranscriptionEngine {
    fn transcribe(
        &self,
        audio: &AudioBuffer,
        screen_context: &ScreenContext,
        _vocabulary: &[String],
    ) -> (r: Result<TranscriptDraft, String>)
        ensures
            r matches Ok(d) && d.raw_text@ == demo_transcript_text(*audio, *screen_context)
                && d.confidence_hint_percent == 92,
    {
        let mut text: Vec<char> = Vec::new();
        if audio.duration_ms < 1500 {
            push_str(&mut text, "Ship the latency fixes today");
        } else {
            push_str(&mut text, "Ship the latency fixes today and review the accessibility path");
        }
        push_str(&mut text, " [");
        let fragment = screen_context.prompt_fragment(90);
        push_str(&mut text, fragment.as_str());
        push_str(&mut text, "]");
        Ok(TranscriptDraft { raw_text: string_from_chars(&text), confidence_hint_percent: 92 })
    }
}

} // verus!
