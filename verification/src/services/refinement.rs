//! Transcript refinement: the refiner interface, a demo refiner, and the
//! decisions and prompt of the hosted language-model refiner.
use vstd::prelude::*;

use crate::domain::{FinalTranscript, ScreenContext, TranscriptDraft};
use crate::services::transcription::{
    default_api_base, endpoint_spec, endpoint_url, missing_key_message, or_default, string_or,
};
use crate::services::vocab::string_views;
use crate::text::{
    char_uppercase, chars_eq, chars_eq_str, chars_of, is_uppercase, lowercase, push_chars,
    push_str, slice_chars, split_whitespace, string_from_chars, to_lowercase, trim_whitespace,
    trim_ws, words, split_by, ws_pred,
};

verus! {

/// Cleans up a first transcript.
pub trait TranscriptRefiner {
    fn refine(
        &self,
        transcript: &TranscriptDraft,
        screen_context: &ScreenContext,
        vocabulary: &[String],
    ) -> Result<FinalTranscript, String>;
}

// ───────────────────────── when to refine ─────────────────────────

/// `sub` occurs in `s`.
pub open spec fn contains_sub(s: Seq<char>, sub: Seq<char>) -> bool {
    exists|i: int| 0 <= i && i + sub.len() <= s.len() && #[trigger] s.subrange(i, i + sub.len()) == sub
}

/// Spoken self-correction cues, in lowercase.
pub open spec fn has_correction_cue(lower: Seq<char>) -> bool {
    ||| contains_sub(lower, "no "@)
    ||| contains_sub(lower, "wait "@)
    ||| contains_sub(lower, "sorry "@)
    ||| contains_sub(lower, "actually "@)
    ||| contains_sub(lower, "i mean "@)
    ||| contains_sub(lower, "scratch that"@)
}

pub open spec fn is_filler(w: Seq<char>) -> bool {
    w == "um"@ || w == "uh"@ || w == "umm"@ || w == "uhh"@ || w == "erm"@ || w == "ah"@
}

pub open spec fn is_terminal(c: char) -> bool {
    c == '.' || c == '!' || c == '?'
}

/// Whether a draft is worth sending to the language model: not for one or
/// two words; always with a self-correction cue; not when it already starts
/// upper-case, ends with terminal punctuation and holds no filler word.
pub open spec fn needs_refinement_spec(text: Seq<char>) -> bool {
    let t = trim_ws(text);
    if t.len() == 0 {
        false
    } else if words(t).len() <= 2 {
        false
    } else {
        let lower = lowercase(t);
        if has_correction_cue(lower) {
            true
        } else {
            let starts_upper = char_uppercase(t[0]);
            let ends_terminal = is_terminal(t.last());
            let has_filler = exists|i: int| 0 <= i < words(lower).len() && is_filler(#[trigger] words(lower)[i]);
            !(starts_upper && ends_terminal && !has_filler)
        }
    }
}

/// A spoken self-correction always sends the draft to the language model:
/// a draft of more than two words whose trimmed lowercase text holds one of
/// the cues "no ", "wait ", "sorry ", "actually ", "i mean " or "scratch that"
/// needs refinement, however it is capitalized or punctuated.
pub proof fn lemma_correction_cue_forces_refinement(text: Seq<char>)
    requires
        words(trim_ws(text)).len() > 2,
        ({
            let lower = lowercase(trim_ws(text));
            ||| contains_sub(lower, "no "@)
            ||| contains_sub(lower, "wait "@)
            ||| contains_sub(lower, "sorry "@)
            ||| contains_sub(lower, "actually "@)
            ||| contains_sub(lower, "i mean "@)
            ||| contains_sub(lower, "scratch that"@)
        }),
    ensures
        needs_refinement_spec(text),
{
    let t = trim_ws(text);
    if t.len() == 0 {
        assert(split_by(t, ws_pred()) == seq![Seq::<char>::empty()]);
        reveal(Seq::filter);
        assert(seq![Seq::<char>::empty()].drop_last() =~= Seq::<Seq<char>>::empty());
        assert(words(t).len() == 0);
    }
}

/// Whether `needle` occurs in `hay`.
pub fn contains_str(hay: &Vec<char>, needle: &str) -> (b: bool)
    ensures
        b == contains_sub(hay@, needle@),
{
    let n = chars_of(needle);
    if n.len() == 0 {
        assert(hay@.subrange(0int, 0int + needle@.len()) =~= needle@);
        return true;
    }
    if n.len() > hay.len() {
        proof {
            assert forall|i: int| 0 <= i && i + n@.len() <= hay@.len() implies #[trigger] hay@.subrange(i, i + n@.len()) != n@ by {}
        }
        return false;
    }
    let hl = hay.len();
    let last = hl - n.len();
    let mut i: usize = 0;
    while i <= last
        invariant
            last == hay@.len() - n@.len(),
            n@ == needle@,
            n@.len() > 0,
            last + n@.len() == hay@.len(),
            hl == hay@.len(),
            i <= last + 1,
            forall|j: int| 0 <= j < i ==> #[trigger] hay@.subrange(j, j + n@.len()) != n@,
        decreases last + 1 - i,
    {
        let piece = slice_chars(hay, i, i + n.len());
        if chars_eq(&piece, &n) {
            assert(hay@.subrange(i as int, i + n@.len()) == needle@);
            return true;
        }
        i += 1;
    }
    proof {
        assert forall|j: int| 0 <= j && j + n@.len() <= hay@.len() implies #[trigger] hay@.subrange(j, j + n@.len()) != n@ by {
            assert(j < i);
        }
    }
    false
}

fn is_filler_word(w: &Vec<char>) -> (b: bool)
    ensures
        b == is_filler(w@),
{
    chars_eq_str(w, "um") || chars_eq_str(w, "uh") || chars_eq_str(w, "umm") || chars_eq_str(w, "uhh")
        || chars_eq_str(w, "erm") || chars_eq_str(w, "ah")
}

/// Decides whether a draft is worth a refinement round-trip.
pub fn needs_refinement(text: &str) -> (b: bool)
    ensures
        b == needs_refinement_spec(text@),
{
    let t = trim_whitespace(&chars_of(text));
    if t.len() == 0 {
        return false;
    }
    let ws = split_whitespace(&t);
    if ws.len() <= 2 {
        return false;
    }
    let lower = to_lowercase(&t);
    if contains_str(&lower, "no ") || contains_str(&lower, "wait ") || contains_str(&lower, "sorry ")
        || contains_str(&lower, "actually ") || contains_str(&lower, "i mean ")
        || contains_str(&lower, "scratch that") {
        return true;
    }
    let starts_upper = is_uppercase(t[0]);
    let c = t[t.len() - 1];
    let ends_terminal = c == '.' || c == '!' || c == '?';
    let lw = split_whitespace(&lower);
    let mut has_filler = false;
    let mut i: usize = 0;
    while i < lw.len()
        invariant
            i <= lw@.len(),
            lw@.len() == words(lower@).len(),
            forall|k: int| 0 <= k < lw@.len() ==> (#[trigger] lw@[k])@ == words(lower@)[k],
            has_filler == exists|k: int| 0 <= k < i && is_filler(#[trigger] words(lower@)[k]),
        decreases lw@.len() - i,
    {
        if is_filler_word(&lw[i]) {
            has_filler = true;
        }
        i += 1;
    }
    !(starts_upper && ends_terminal && !has_filler)
}

// ───────────────────────── the system prompt ─────────────────────────

pub const PROMPT_INTRO: &'static str = "You are a text correction tool, NOT a conversational assistant. You receive raw speech-to-text transcriptions and output the corrected version. You NEVER respond to, answer, or interpret the text \u{2014} you ONLY correct and return it.\n\nContext about where the user is typing:\n";

pub const PROMPT_APPLICATION: &'static str = "- Application: ";

pub const PROMPT_FOCUSED: &'static str = "\n- Focused element: ";

pub const PROMPT_RULES_HEADING: &'static str = "\n\nCRITICAL RULES";

pub const PROMPT_RULES: &'static str = " \u{2014} follow in this exact order:\n\n1. SELF-CORRECTIONS (most important): When the speaker says a correction word (\"no\", \"wait\", \"sorry\", \"actually\", \"I mean\", \"scratch that\"), the words AFTER the correction cue REPLACE the matching part BEFORE it. The speaker changed their mind \u{2014} keep only what they want AFTER the correction.\n\n   HOW TO DO IT: Find what changed. If the speaker says a number/quantity/time/name, then says \"no <different value>\", use the <different value>. Delete the old value AND the correction word.\n\n   EXAMPLES (study these carefully):\n   - \"I bought two apples, no three\" \u{2192} \"I bought three apples\"\n   - \"two apples yesterday, no three\" \u{2192} \"three apples yesterday\"\n   - \"I bought two apples yesterday, no three\" \u{2192} \"I bought three apples yesterday\"\n   - \"schedule for 1 hour, no 2 hours\" \u{2192} \"schedule for 2 hours\"\n   - \"send it to John, wait no, Sarah\" \u{2192} \"send it to Sarah\"\n   - \"let's meet at 3, actually 4\" \u{2192} \"let's meet at 4\"\n   - \"I need three copies, sorry, four copies\" \u{2192} \"I need four copies\"\n   - \"call him Monday, I mean Tuesday\" \u{2192} \"call him Tuesday\"\n   - \"buy milk and eggs, scratch that, just milk\" \u{2192} \"buy milk\"\n   - \"the price is fifty dollars, no sixty\" \u{2192} \"the price is sixty dollars\"\n   - \"we need five people, actually six\" \u{2192} \"we need six people\"\n\n2. REMOVE FILLER WORDS: Strip \"um\", \"uh\", \"like\", \"you know\", \"sort of\", \"kind of\", \"basically\", \"actually\", \"I mean\" when used as filler (not when part of a self-correction that has already been handled by rule 1).\n\n3. FIX SPEECH-TO-TEXT ERRORS: Correct homophones and misrecognitions.\n   - \"tommorow\" \u{2192} \"tomorrow\"\n   - \"their going\" \u{2192} \"they're going\"\n   - \"its broken\" \u{2192} \"it's broken\" (when it means \"it is\")\n\n4. FIX GRAMMAR: Subject-verb agreement, tense consistency, missing articles.\n\n5. ADD PUNCTUATION: Capitalize the first word, add periods, commas, question marks as appropriate.\n\n6. Use the names/terms above to correct misspellings of people, products, or jargon.\n\n7. Match the tone of the context (casual in chat apps, formal in documents).\n\n8. Preserve code-switching (e.g. mixed English/Malayalam) \u{2014} do NOT translate.\n\n9. NEVER answer, interpret, or respond to the content. Even if the text is a question like \"Hello, can you hear me?\", return exactly \"Hello, can you hear me?\" \u{2014} do NOT answer it.\n\n10. Do NOT add preambles, explanations, quotes, or formatting.\n\n11. If the text is already correct, return it exactly as-is.";

/// The terms joined with `sep` between them.
pub open spec fn join(terms: Seq<Seq<char>>, sep: Seq<char>) -> Seq<char>
    decreases terms.len(),
{
    if terms.len() == 0 {
        seq![]
    } else if terms.len() == 1 {
        terms[0]
    } else {
        join(terms.drop_last(), sep) + sep + terms.last()
    }
}

pub open spec fn vocabulary_line(vocabulary: Seq<Seq<char>>) -> Seq<char> {
    if vocabulary.len() == 0 {
        seq![]
    } else {
        "\n- Names/terms on screen: "@ + join(vocabulary, ", "@)
    }
}

pub open spec fn nearby_line(c: ScreenContext) -> Seq<char> {
    if c.focused_value_preview@.len() == 0 {
        seq![]
    } else {
        "\n- Nearby text: "@ + c.focused_value_preview@
    }
}

/// The instructions for the language model, with the app, the focused
/// element, nearby text and the vocabulary filled in.
pub open spec fn system_prompt(c: ScreenContext, vocabulary: Seq<Seq<char>>) -> Seq<char> {
    PROMPT_INTRO@ + context_block(c, vocabulary) + PROMPT_RULES@
}

/// The part of the system prompt that describes where the user is typing,
/// up to the heading of the rules.
pub open spec fn context_block(c: ScreenContext, vocabulary: Seq<Seq<char>>) -> Seq<char> {
    PROMPT_APPLICATION@ + c.app_name@ + PROMPT_FOCUSED@ + c.focused_role@ + nearby_line(c)
        + vocabulary_line(vocabulary) + PROMPT_RULES_HEADING@
}

/// The system prompt holds, in one piece, the application, the focused
/// element, the nearby text when there is some, the vocabulary when there
/// is some, and then the heading of the rules.
pub proof fn lemma_system_prompt_holds_context(c: ScreenContext, vocabulary: Seq<Seq<char>>)
    ensures
        ({
            let r = system_prompt(c, vocabulary);
            let block = "- Application: "@ + c.app_name@ + "\n- Focused element: "@ + c.focused_role@
                + nearby_line(c) + vocabulary_line(vocabulary) + "\n\nCRITICAL RULES"@;
            exists|i: int| 0 <= i && i + block.len() <= r.len() && #[trigger] r.subrange(i, i + block.len()) == block
        }),
{
    let r = system_prompt(c, vocabulary);
    let block = context_block(c, vocabulary);
    let i = PROMPT_INTRO@.len() as int;
    assert(r.subrange(i, i + block.len()) =~= block);
}

fn join_terms(vocabulary: &[String], sep: &str) -> (r: Vec<char>)
    ensures
        r@ == join(string_views(vocabulary@), sep@),
{
    let ghost vs = string_views(vocabulary@);
    let mut out: Vec<char> = Vec::new();
    let mut i: usize = 0;
    while i < vocabulary.len()
        invariant
            i <= vocabulary@.len(),
            vs == string_views(vocabulary@),
            out@ == join(vs.take(i as int), sep@),
        decreases vocabulary@.len() - i,
    {
        assert(vs.take(i + 1).drop_last() =~= vs.take(i as int));
        assert(vs.take(i + 1).last() == vocabulary@[i as int]@);
        if i > 0 {
            push_str(&mut out, sep);
        } else {
            assert(join(vs.take(0), sep@) =~= Seq::<char>::empty());
        }
        push_str(&mut out, vocabulary[i].as_str());
        proof {
            if i == 0 {
                assert(vs.take(1).len() == 1);
                assert(out@ =~= vs.take(1)[0]);
            }
        }
        i += 1;
    }
    assert(vs.take(vocabulary@.len() as int) =~= vs);
    out
}

/// Builds the system prompt that turns the model into a transcript fixer.
pub fn build_system_prompt(ctx: &ScreenContext, vocabulary: &[String]) -> (r: String)
    ensures
        r@ == system_prompt(*ctx, string_views(vocabulary@)),
{
    let mut out: Vec<char> = Vec::new();
    push_str(&mut out, PROMPT_INTRO);
    push_str(&mut out, PROMPT_APPLICATION);
    push_str(&mut out, ctx.app_name.as_str());
    push_str(&mut out, PROMPT_FOCUSED);
    push_str(&mut out, ctx.focused_role.as_str());
    if !ctx.focused_value_preview.as_str().is_empty() {
        push_str(&mut out, "\n- Nearby text: ");
        push_str(&mut out, ctx.focused_value_preview.as_str());
    }
    if vocabulary.len() > 0 {
        push_str(&mut out, "\n- Names/terms on screen: ");
        let joined = join_terms(vocabulary, ", ");
        push_chars(&mut out, &joined);
    }
    push_str(&mut out, PROMPT_RULES_HEADING);
    push_str(&mut out, PROMPT_RULES);
    string_from_chars(&out)
}

// ───────────────────────── the model's reply ─────────────────────────

/// The refined text is the first choice's content, trimmed, or the draft
/// itself when there is no choice; it counts as refined when it differs.
pub open spec fn refinement_result(raw: Seq<char>, first_choice: Option<Seq<char>>) -> (Seq<char>, bool) {
    let text = match first_choice {
        Some(c) => trim_ws(c),
        None => raw,
    };
    (text, text != raw)
}

pub fn finish_refinement(raw: &str, first_choice: Option<String>) -> (r: FinalTranscript)
    ensures
        (r.text@, r.was_refined) == refinement_result(raw@, match first_choice {
            Some(s) => Some(s@),
            None => None,
        }),
{
    let raw_chars = chars_of(raw);
    let text = match first_choice {
        Some(c) => trim_whitespace(&chars_of(c.as_str())),
        None => chars_of(raw),
    };
    let was_refined = !chars_eq(&text, &raw_chars);
    FinalTranscript { text: string_from_chars(&text), was_refined }
}

/// The draft kept as it is, for drafts not worth refining.
pub fn unrefined(transcript: &TranscriptDraft) -> (r: FinalTranscript)
    ensures
        r.text@ == transcript.raw_text@,
        !r.was_refined,
{
    FinalTranscript { text: string_from_chars(&chars_of(transcript.raw_text.as_str())), was_refined: false }
}

/// Settings of the hosted refinement model.
pub struct RefinementSettings {
    pub api_key: String,
    pub model: String,
    pub base_url: String,
}

impl RefinementSettings {
    /// Settings from the environment's values (`None` where unset): the API
    /// key is required; the model defaults to `openai/gpt-oss-20b` and the
    /// base URL to Groq's.
    pub fn from_env_values(api_key: Option<String>, model: Option<String>, base_url: Option<String>) -> (r:
        Result<RefinementSettings, String>)
        ensures
            match r {
                Ok(s) => api_key is Some && s.api_key@ == api_key->0@ && s.model@ == or_default(
                    model,
                    "openai/gpt-oss-20b"@,
                ) && s.base_url@ == or_default(base_url, default_api_base()),
                Err(e) => api_key is None && e@ == missing_key_message(),
            },
    {
        match api_key {
            None => Err(string_from_chars(&chars_of("missing GROQ_API_KEY in the environment or .env file"))),
            Some(key) => Ok(
                RefinementSettings {
                    api_key: key,
                    model: string_or(model, "openai/gpt-oss-20b"),
                    base_url: string_or(base_url, "https://api.groq.com/openai/v1"),
                },
            ),
        }
    }

    /// Where chat-completion requests go.
    pub fn completions_url(&self) -> (r: String)
        ensures
            r@ == endpoint_spec(self.base_url@, "/chat/completions"@),
    {
        endpoint_url(self.base_url.as_str(), "/chat/completions")
    }
}

// ───────────────────────── the demo refiner ─────────────────────────

/// A refiner that ends the draft with a period when the focused field
/// holds action items.
pub struct DemoTranscriptRefiner;

pub open spec fn demo_refined(raw: Seq<char>, c: ScreenContext) -> Seq<char> {
    if contains_sub(c.focused_value_preview@, "Action items"@) && !(raw.len() > 0 && raw.last() == '.') {
        raw.push('.')
    } else {
        raw
    }
}

impl TranscriptRefiner for DemoTranscriptRefiner {
    fn refine(
        &self,
        transcript: &TranscriptDraft,
        screen_context: &ScreenContext,
        _vocabulary: &[String],
    ) -> (r: Result<FinalTranscript, String>)
        ensures
            r matches Ok(f) && f.text@ == demo_refined(transcript.raw_text@, *screen_context)
                && f.was_refined == (f.text@ != transcript.raw_text@),
    {
        let raw = chars_of(transcript.raw_text.as_str());
        let mut refined = chars_of(transcript.raw_text.as_str());
        let preview = chars_of(screen_context.focused_value_preview.as_str());
        let ends_with_period = refined.len() > 0 && refined[refined.len() - 1] == '.';
        if contains_str(&preview, "Action items") && !ends_with_period {
            refined.push('.');
        }
        let was_refined = !chars_eq(&refined, &raw);
        Ok(FinalTranscript { text: string_from_chars(&refined), was_refined })
    }
}

} // verus!
