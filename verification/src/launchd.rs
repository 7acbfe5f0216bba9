//! Launch at login through a macOS LaunchAgent: the agent's file, its
//! location, and how `launchctl` answers are read.
use vstd::prelude::*;

use crate::config::{join_path, path_join};
use crate::text::{chars_of, push_chars, push_str, string_from_chars, trim_whitespace, trim_ws};

verus! {

pub const LABEL: &'static str = "com.openflow.dictation";

pub const PLIST_NAME: &'static str = "com.openflow.dictation.plist";

// ───────────────────────── XML escaping ─────────────────────────

/// The XML text for one character: the five special characters become
/// entities, every other character stays.
pub open spec fn xml_escape_char(c: char) -> Seq<char> {
    if c == '&' {
        "&amp;"@
    } else if c == '<' {
        "&lt;"@
    } else if c == '>' {
        "&gt;"@
    } else if c == '"' {
        "&quot;"@
    } else if c == '\'' {
        "&apos;"@
    } else {
        seq![c]
    }
}

pub open spec fn xml_escape_spec(s: Seq<char>) -> Seq<char>
    decreases s.len(),
{
    if s.len() == 0 {
        seq![]
    } else {
        xml_escape_spec(s.drop_last()) + xml_escape_char(s.last())
    }
}

fn push_escaped(out: &mut Vec<char>, c: char)
    ensures
        final(out)@ == old(out)@ + xml_escape_char(c),
{
    if c == '&' {
        push_str(out, "&amp;");
    } else if c == '<' {
        push_str(out, "&lt;");
    } else if c == '>' {
        push_str(out, "&gt;");
    } else if c == '"' {
        push_str(out, "&quot;");
    } else if c == '\'' {
        push_str(out, "&apos;");
    } else {
        let ghost before = out@;
        out.push(c);
        assert(out@ =~= before + seq![c]);
    }
}

fn escape_chars(v: &Vec<char>) -> (r: Vec<char>)
    ensures
        r@ == xml_escape_spec(v@),
{
    let mut out: Vec<char> = Vec::new();
    let mut i: usize = 0;
    while i < v.len()
        invariant
            i <= v.len(),
            out@ == xml_escape_spec(v@.take(i as int)),
        decreases v.len() - i,
    {
        assert(v@.take(i + 1).drop_last() =~= v@.take(i as int));
        assert(v@.take(i + 1).last() == v@[i as int]);
        push_escaped(&mut out, v[i]);
        i += 1;
    }
    assert(v@.take(v.len() as int) =~= v@);
    out
}

/// Escapes the XML special characters `& < > " '`.
pub fn xml_escape(s: &str) -> (r: String)
    ensures
        r@ == xml_escape_spec(s@),
{
    string_from_chars(&escape_chars(&chars_of(s)))
}

// ───────────────────────── the agent file ─────────────────────────

pub const PLIST_HEAD: &'static str = "<?xml version=\"1.0\" encoding=\"UTF-8\"?>\n<!DOCTYPE plist PUBLIC \"-//Apple//DTD PLIST 1.0//EN\" \"http://www.apple.com/DTDs/PropertyList-1.0.dtd\">\n<plist version=\"1.0\">\n<dict>\n    <key>Label</key>\n    <string>";

pub const PLIST_MIDDLE: &'static str = "</string>\n    <key>ProgramArguments</key>\n    <array>\n        <string>";

pub const PLIST_TAIL: &'static str = "</string>\n        <string>live</string>\n    </array>\n    <key>RunAtLoad</key>\n    <true/>\n    <key>KeepAlive</key>\n\t<dict>\n\t\t<key>Crashed</key>\n\t\t<true/>\n\t</dict>\n    <key>ProcessType</key>\n    <string>Interactive</string>\n    <key>StandardOutPath</key>\n    <string>/tmp/openflow.log</string>\n    <key>StandardErrorPath</key>\n    <string>/tmp/openflow.err</string>\n</dict>\n</plist>";

/// The property list that runs `binary live` at login and restarts it
/// after a crash.
pub open spec fn plist_content_spec(binary: Seq<char>) -> Seq<char> {
    PLIST_HEAD@ + LABEL@ + PLIST_MIDDLE@ + xml_escape_spec(binary) + PLIST_TAIL@
}

pub fn plist_content(binary: &str) -> (r: String)
    ensures
        r@ == plist_content_spec(binary@),
{
    let mut out: Vec<char> = Vec::new();
    push_str(&mut out, PLIST_HEAD);
    push_str(&mut out, LABEL);
    push_str(&mut out, PLIST_MIDDLE);
    push_chars(&mut out, &escape_chars(&chars_of(binary)));
    push_str(&mut out, PLIST_TAIL);
    string_from_chars(&out)
}

/// `~/Library/LaunchAgents/com.openflow.dictation.plist` for the given home
/// directory.
pub fn plist_path(home: &str) -> (r: String)
    ensures
        r@ == path_join(path_join(path_join(home@, "Library"@), "LaunchAgents"@), PLIST_NAME@),
{
    let a = join_path(home, "Library");
    let b = join_path(a.as_str(), "LaunchAgents");
    join_path(b.as_str(), PLIST_NAME)
}

// ───────────────────────── launchctl ─────────────────────────

/// The GUI session domain of a user.
pub fn gui_domain(uid: &str) -> (r: String)
    ensures
        r@ == "gui/"@ + uid@,
{
    let mut out: Vec<char> = Vec::new();
    push_str(&mut out, "gui/");
    push_str(&mut out, uid);
    string_from_chars(&out)
}

/// The agent's service target in a user's GUI session.
pub fn service_target(uid: &str) -> (r: String)
    ensures
        r@ == "gui/"@ + uid@ + "/"@ + LABEL@,
{
    let mut out: Vec<char> = Vec::new();
    push_str(&mut out, "gui/");
    push_str(&mut out, uid);
    push_str(&mut out, "/");
    push_str(&mut out, LABEL);
    string_from_chars(&out)
}

/// The user id printed by `id -u`, without surrounding whitespace.
pub fn parse_uid(stdout: &str) -> (r: String)
    ensures
        r@ == trim_ws(stdout@),
{
    string_from_chars(&trim_whitespace(&chars_of(stdout)))
}

/// How a `launchctl` run ends: success, or a failure whose exit code
/// `tolerated` counts as done, or an error naming the subcommand and its
/// standard error.
pub open spec fn launchctl_outcome_spec(
    subcommand: Seq<char>,
    success: bool,
    code: Option<i32>,
    tolerated: i32,
    stderr: Seq<char>,
) -> Result<(), Seq<char>> {
    if success || code == Some(tolerated) {
        Ok(())
    } else {
        Err("launchctl "@ + subcommand + ": "@ + stderr)
    }
}

pub fn launchctl_outcome(subcommand: &str, success: bool, code: Option<i32>, tolerated: i32, stderr: &str) -> (r:
    Result<(), String>)
    ensures
        match (r, launchctl_outcome_spec(subcommand@, success, code, tolerated, stderr@)) {
            (Ok(()), Ok(())) => true,
            (Err(e), Err(m)) => e@ == m,
            _ => false,
        },
{
    if success {
        return Ok(());
    }
    match code {
        Some(c) => {
            if c == tolerated {
                return Ok(());
            }
        },
        None => {},
    }
    let mut out: Vec<char> = Vec::new();
    push_str(&mut out, "launchctl ");
    push_str(&mut out, subcommand);
    push_str(&mut out, ": ");
    push_str(&mut out, stderr);
    Err(string_from_chars(&out))
}

/// `launchctl bootstrap`: exit code 17 means the agent is already loaded.
pub fn bootstrap_outcome(success: bool, code: Option<i32>, stderr: &str) -> (r: Result<(), String>)
    ensures
        match (r, launchctl_outcome_spec("bootstrap"@, success, code, 17, stderr@)) {
            (Ok(()), Ok(())) => true,
            (Err(e), Err(m)) => e@ == m,
            _ => false,
        },
{
    launchctl_outcome("bootstrap", success, code, 17, stderr)
}

/// `launchctl bootout`: exit code 3 means the agent was not loaded.
pub fn bootout_outcome(success: bool, code: Option<i32>, stderr: &str) -> (r: Result<(), String>)
    ensures
        match (r, launchctl_outcome_spec("bootout"@, success, code, 3, stderr@)) {
            (Ok(()), Ok(())) => true,
            (Err(e), Err(m)) => e@ == m,
            _ => false,
        },
{
    launchctl_outcome("bootout", success, code, 3, stderr)
}

// ───────────────────────── laws ─────────────────────────

pub open spec fn is_xml_special(c: char) -> bool {
    c == '&' || c == '<' || c == '>' || c == '"' || c == '\''
}

/// Escaped text holds none of `< > " '`, so it can stand inside an XML
/// element or attribute.
pub proof fn lemma_escape_removes_specials(s: Seq<char>)
    ensures
        forall|i: int| 0 <= i < xml_escape_spec(s).len() ==> {
            let c = #[trigger] xml_escape_spec(s)[i];
            c != '<' && c != '>' && c != '"' && c != '\''
        },
    decreases s.len(),
{
    reveal_strlit("&amp;");
    reveal_strlit("&lt;");
    reveal_strlit("&gt;");
    reveal_strlit("&quot;");
    reveal_strlit("&apos;");
    if s.len() > 0 {
        lemma_escape_removes_specials(s.drop_last());
        let a = xml_escape_spec(s.drop_last());
        let b = xml_escape_char(s.last());
        assert forall|i: int| 0 <= i < (a + b).len() implies {
            let c = #[trigger] (a + b)[i];
            c != '<' && c != '>' && c != '"' && c != '\''
        } by {
            if i >= a.len() {
                assert((a + b)[i] == b[i - a.len()]);
            } else {
                assert((a + b)[i] == a[i]);
            }
        }
    }
}

/// Text without XML special characters (such as ordinary binary paths)
/// is left as it is.
pub proof fn lemma_escape_plain_identity(s: Seq<char>)
    requires
        forall|i: int| 0 <= i < s.len() ==> !is_xml_special(#[trigger] s[i]),
    ensures
        xml_escape_spec(s) == s,
    decreases s.len(),
{
    if s.len() > 0 {
        assert forall|i: int| 0 <= i < s.drop_last().len() implies !is_xml_special(#[trigger] s.drop_last()[i]) by {
            assert(s.drop_last()[i] == s[i]);
        }
        lemma_escape_plain_identity(s.drop_last());
        assert(!is_xml_special(s[s.len() - 1]));
        assert(s.drop_last() + seq![s.last()] =~= s);
    }
}

} // verus!
