//! Settings read from `~/.config/openflow/config.toml`.
use vstd::prelude::*;

use crate::text::{chars_of, push_str, string_from_chars};

verus! {

/// User settings; every field has a default.
#[derive(Debug, Clone)]
pub struct AppConfig {
    /// Key to hold while speaking. Valid values: right_command, f18, f19
    pub hold_key: String,
    pub transcription_latency_budget_ms: u64,
    pub refinement_latency_budget_ms: u64,
    pub max_screen_context_chars: usize,
    /// Override of GROQ_TRANSCRIPTION_MODEL (optional)
    pub transcription_model: Option<String>,
    /// Override of GROQ_REFINEMENT_MODEL (optional)
    pub refinement_model: Option<String>,
    /// ISO 639-1 language code hint for Whisper, e.g. "en". Empty = auto-detect.
    pub language: Option<String>,
}

pub open spec fn is_default_config(c: AppConfig) -> bool {
    &&& c.hold_key@ == "f18"@
    &&& c.transcription_latency_budget_ms == 450
    &&& c.refinement_latency_budget_ms == 120
    &&& c.max_screen_context_chars == 2000
    &&& c.transcription_model is None
    &&& c.refinement_model is None
    &&& c.language is None
}

impl Default for AppConfig {
    fn default() -> (c: Self)
        ensures
            is_default_config(c),
    {
        AppConfig {
            hold_key: string_from_chars(&chars_of("f18")),
            transcription_latency_budget_ms: 450,
            refinement_latency_budget_ms: 120,
            max_screen_context_chars: 2_000,
            transcription_model: None,
            refinement_model: None,
            language: None,
        }
    }
}

/// The text of the configuration file written on first run.
pub const DEFAULT_CONFIG_TEXT: &'static str = "# OpenFlow configuration\n# ~/.config/openflow/config.toml\n\n# Key to hold while speaking.\n# Options: right_command, f18, f19\nhold_key = \"f18\"\n\n# How much surrounding screen text to send to Whisper as context (chars).\nmax_screen_context_chars = 2000\n\n# Whisper model for transcription (via Groq).\n# transcription_model = \"whisper-large-v3-turbo\"\n\n# LLM model for filler-word removal and cleanup (via Groq).\n# refinement_model = \"llama-3.1-8b-instant\"\n\n# ISO 639-1 language code for Whisper. Empty string = auto-detect.\n# language = \"en\"\n";

/// An environment variable to set at startup.
pub struct EnvOverride {
    pub name: String,
    pub value: String,
}

pub open spec fn override_view(o: EnvOverride) -> (Seq<char>, Seq<char>) {
    (o.name@, o.value@)
}

/// The variables that the configuration sets: each configured model or
/// non-empty language, unless the environment already has that variable.
pub open spec fn env_overrides_spec(
    c: AppConfig,
    transcription_model_set: bool,
    refinement_model_set: bool,
    language_set: bool,
) -> Seq<(Seq<char>, Seq<char>)> {
    let a: Seq<(Seq<char>, Seq<char>)> = match c.transcription_model {
        Some(m) if !transcription_model_set => seq![("GROQ_TRANSCRIPTION_MODEL"@, m@)],
        _ => seq![],
    };
    let b: Seq<(Seq<char>, Seq<char>)> = match c.refinement_model {
        Some(m) if !refinement_model_set => seq![("GROQ_REFINEMENT_MODEL"@, m@)],
        _ => seq![],
    };
    let l: Seq<(Seq<char>, Seq<char>)> = match c.language {
        Some(lang) if lang@.len() > 0 && !language_set => seq![("GROQ_TRANSCRIPTION_LANGUAGE"@, lang@)],
        _ => seq![],
    };
    a + b + l
}

fn owned(s: &str) -> (r: String)
    ensures
        r@ == s@,
{
    string_from_chars(&chars_of(s))
}

fn copy_string(s: &String) -> (r: String)
    ensures
        r@ == s@,
{
    string_from_chars(&chars_of(s.as_str()))
}

impl AppConfig {
    /// The environment variables to set before the services start, given
    /// which of them the environment already holds.
    pub fn env_overrides(
        &self,
        transcription_model_set: bool,
        refinement_model_set: bool,
        language_set: bool,
    ) -> (r: Vec<EnvOverride>)
        ensures
            r@.map_values(|o: EnvOverride| override_view(o)) == env_overrides_spec(
                *self,
                transcription_model_set,
                refinement_model_set,
                language_set,
            ),
    {
        let mut out: Vec<EnvOverride> = Vec::new();
        if let Some(m) = &self.transcription_model {
            if !transcription_model_set {
                out.push(EnvOverride { name: owned("GROQ_TRANSCRIPTION_MODEL"), value: copy_string(m) });
            }
        }
        let ghost after_a = out@;
        if let Some(m) = &self.refinement_model {
            if !refinement_model_set {
                out.push(EnvOverride { name: owned("GROQ_REFINEMENT_MODEL"), value: copy_string(m) });
            }
        }
        let ghost after_b = out@;
        if let Some(lang) = &self.language {
            if !lang.as_str().is_empty() && !language_set {
                out.push(EnvOverride { name: owned("GROQ_TRANSCRIPTION_LANGUAGE"), value: copy_string(lang) });
            }
        }
        assert(out@.map_values(|o: EnvOverride| override_view(o)) =~= env_overrides_spec(
            *self,
            transcription_model_set,
            refinement_model_set,
            language_set,
        ));
        out
    }
}

// ───────────────────────── paths ─────────────────────────

/// `PathBuf::push` of a relative component: a `/` goes between unless the
/// base is empty or already ends with one.
pub open spec fn path_join(base: Seq<char>, part: Seq<char>) -> Seq<char> {
    if base.len() == 0 {
        part
    } else if base.last() == '/' {
        base + part
    } else {
        base + "/"@ + part
    }
}

pub fn join_path(base: &str, part: &str) -> (r: String)
    ensures
        r@ == path_join(base@, part@),
{
    let mut v = chars_of(base);
    if v.len() > 0 && v[v.len() - 1] != '/' {
        push_str(&mut v, "/");
    }
    push_str(&mut v, part);
    string_from_chars(&v)
}

pub open spec fn config_dir_spec(home: Seq<char>) -> Seq<char> {
    path_join(path_join(home, ".config"@), "openflow"@)
}

/// The directory that holds the configuration file.
pub fn config_dir(home: &str) -> (r: String)
    ensures
        r@ == config_dir_spec(home@),
{
    let a = join_path(home, ".config");
    join_path(a.as_str(), "openflow")
}

/// `~/.config/openflow/config.toml` for the given home directory.
pub fn config_file_path(home: &str) -> (r: String)
    ensures
        r@ == path_join(config_dir_spec(home@), "config.toml"@),
{
    let d = config_dir(home);
    join_path(d.as_str(), "config.toml")
}

} // verus!
