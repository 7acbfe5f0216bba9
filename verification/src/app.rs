//! The assistant's front door: its configuration, and which command a
//! command line asks for.
use vstd::prelude::*;

use crate::config::AppConfig;
use crate::platform::PermissionSnapshot;
use crate::services::vocab::string_views;
use crate::text::{chars_of, push_str, string_from_chars};

verus! {

/// The assistant, configured.
pub struct AssistantApp {
    config: AppConfig,
}

impl AssistantApp {
    pub fn new(config: AppConfig) -> (app: AssistantApp)
        ensures
            app.config() == config,
    {
        AssistantApp { config }
    }

    pub closed spec fn config(&self) -> AppConfig {
        self.config
    }

    /// The configuration the assistant runs with.
    pub fn config_ref(&self) -> (c: &AppConfig)
        ensures
            *c == self.config(),
    {
        &self.config
    }
}

/// A command of the command line.
pub enum Command {
    /// Live dictation with the menu bar icon.
    Live { trigger: String },
    Setup,
    Permissions,
    Focus,
    AxDebug,
    /// `delay` is the text of the delay argument, when given.
    AxDebugAfter { delay: Option<String> },
    FocusAfter { delay: Option<String> },
    Paste { text: String },
    /// The text may be empty; the delay is checked first.
    PasteAfter { delay: Option<String>, text: String },
    MonitorHotkey { trigger: String },
    Demo,
    Help { bin_name: String },
}

/// The arguments from `from` on, joined with spaces.
pub open spec fn join_args(args: Seq<Seq<char>>, from: int) -> Seq<char>
    decreases args.len(),
{
    if args.len() <= from || args.len() == 0 {
        seq![]
    } else if args.len() == from + 1 {
        args.last()
    } else {
        join_args(args.drop_last(), from) + " "@ + args.last()
    }
}

pub open spec fn arg_or(args: Seq<Seq<char>>, i: int, d: Seq<char>) -> Seq<char> {
    if i < args.len() {
        args[i]
    } else {
        d
    }
}

pub open spec fn opt_arg(args: Seq<Seq<char>>, i: int) -> Option<Seq<char>> {
    if i < args.len() {
        Some(args[i])
    } else {
        None
    }
}

pub open spec fn opt_string_view(o: Option<String>) -> Option<Seq<char>> {
    match o {
        Some(s) => Some(s@),
        None => None,
    }
}

/// What a command line asks for: the first argument names the command
/// (none means live dictation), later ones are its operands.
pub open spec fn parse_command_spec(args: Seq<Seq<char>>, default_key: Seq<char>, c: Command) -> bool {
    let name = opt_arg(args, 1);
    if name == None::<Seq<char>> || name == Some("live"@) {
        c matches Command::Live { trigger } && trigger@ == arg_or(args, 2, default_key)
    } else if name == Some("setup"@) {
        c is Setup
    } else if name == Some("permissions"@) {
        c is Permissions
    } else if name == Some("focus"@) {
        c is Focus
    } else if name == Some("ax-debug"@) {
        c is AxDebug
    } else if name == Some("ax-debug-after"@) {
        c matches Command::AxDebugAfter { delay } && opt_string_view(delay) == opt_arg(args, 2)
    } else if name == Some("focus-after"@) {
        c matches Command::FocusAfter { delay } && opt_string_view(delay) == opt_arg(args, 2)
    } else if name == Some("paste"@) {
        c matches Command::Paste { text } && text@ == join_args(args, 2)
    } else if name == Some("paste-after"@) {
        c matches Command::PasteAfter { delay, text } && opt_string_view(delay) == opt_arg(args, 2)
            && text@ == join_args(args, 3)
    } else if name == Some("monitor-hotkey"@) {
        c matches Command::MonitorHotkey { trigger } && trigger@ == arg_or(args, 2, default_key)
    } else if name == Some("demo"@) {
        c is Demo
    } else if name == Some("help"@) {
        c matches Command::Help { bin_name } && bin_name@ == arg_or(args, 0, "openflow"@)
    } else {
        false
    }
}

pub open spec fn known_command(args: Seq<Seq<char>>) -> bool {
    let name = opt_arg(args, 1);
    ||| name == None::<Seq<char>>
    ||| name == Some("live"@)
    ||| name == Some("setup"@)
    ||| name == Some("permissions"@)
    ||| name == Some("focus"@)
    ||| name == Some("ax-debug"@)
    ||| name == Some("ax-debug-after"@)
    ||| name == Some("focus-after"@)
    ||| name == Some("paste"@)
    ||| name == Some("paste-after"@)
    ||| name == Some("monitor-hotkey"@)
    ||| name == Some("demo"@)
    ||| name == Some("help"@)
}

fn copy_string(s: &String) -> (r: String)
    ensures
        r@ == s@,
{
    string_from_chars(&chars_of(s.as_str()))
}

fn owned(s: &str) -> (r: String)
    ensures
        r@ == s@,
{
    string_from_chars(&chars_of(s))
}

fn is(a: &String, lit: &str) -> (b: bool)
    ensures
        b == (a@ == lit@),
{
    crate::text::chars_eq_str(&chars_of(a.as_str()), lit)
}

fn arg_or_exec(args: &Vec<String>, i: usize, d: &str) -> (r: String)
    ensures
        r@ == arg_or(string_views(args@), i as int, d@),
{
    if i < args.len() {
        copy_string(&args[i])
    } else {
        owned(d)
    }
}

fn opt_arg_exec(args: &Vec<String>, i: usize) -> (r: Option<String>)
    ensures
        opt_string_view(r) == opt_arg(string_views(args@), i as int),
{
    if i < args.len() {
        Some(copy_string(&args[i]))
    } else {
        None
    }
}

fn join_args_exec(args: &Vec<String>, from: usize) -> (r: String)
    ensures
        r@ == join_args(string_views(args@), from as int),
{
    let ghost a = string_views(args@);
    let mut out: Vec<char> = Vec::new();
    if args.len() <= from {
        return string_from_chars(&out);
    }
    let mut i = from;
    while i < args.len()
        invariant
            from <= i <= args@.len(),
            a == string_views(args@),
            from < args@.len(),
            out@ == join_args(a.take(i as int), from as int),
        decreases args@.len() - i,
    {
        assert(a.take(i + 1).drop_last() =~= a.take(i as int));
        assert(a.take(i + 1).last() == args@[i as int]@);
        if i > from {
            push_str(&mut out, " ");
        } else {
            assert(join_args(a.take(i as int), from as int) =~= Seq::<char>::empty());
        }
        push_str(&mut out, args[i].as_str());
        i += 1;
    }
    assert(a.take(args@.len() as int) =~= a);
    string_from_chars(&out)
}

/// Reads the command of a command line (`args[0]` is the program). An
/// unknown command name gives the error that points to `help`.
pub fn parse_command(args: &Vec<String>, default_key: &str) -> (r: Result<Command, String>)
    ensures
        match r {
            Ok(c) => known_command(string_views(args@)) && parse_command_spec(string_views(args@), default_key@, c),
            Err(e) => !known_command(string_views(args@)) && e@ == "unknown command: "@ + string_views(args@)[1]
                + ". Run `openflow help` for usage."@,
        },
{
    let ghost a = string_views(args@);
    if args.len() < 2 || is(&args[1], "live") {
        return Ok(Command::Live { trigger: arg_or_exec(args, 2, default_key) });
    }
    let name = &args[1];
    assert(opt_arg(a, 1) == Some(name@));
    if is(name, "setup") {
        Ok(Command::Setup)
    } else if is(name, "permissions") {
        Ok(Command::Permissions)
    } else if is(name, "focus") {
        Ok(Command::Focus)
    } else if is(name, "ax-debug") {
        Ok(Command::AxDebug)
    } else if is(name, "ax-debug-after") {
        Ok(Command::AxDebugAfter { delay: opt_arg_exec(args, 2) })
    } else if is(name, "focus-after") {
        Ok(Command::FocusAfter { delay: opt_arg_exec(args, 2) })
    } else if is(name, "paste") {
        Ok(Command::Paste { text: join_args_exec(args, 2) })
    } else if is(name, "paste-after") {
        Ok(Command::PasteAfter { delay: opt_arg_exec(args, 2), text: join_args_exec(args, 3) })
    } else if is(name, "monitor-hotkey") {
        Ok(Command::MonitorHotkey { trigger: arg_or_exec(args, 2, default_key) })
    } else if is(name, "demo") {
        Ok(Command::Demo)
    } else if is(name, "help") {
        Ok(Command::Help { bin_name: arg_or_exec(args, 0, "openflow") })
    } else {
        let mut msg: Vec<char> = Vec::new();
        push_str(&mut msg, "unknown command: ");
        push_str(&mut msg, name.as_str());
        push_str(&mut msg, ". Run `openflow help` for usage.");
        Err(string_from_chars(&msg))
    }
}

/// The text a paste command needs, or its usage line when there is none.
pub fn require_text(text: String, usage: &str) -> (r: Result<String, String>)
    ensures
        match r {
            Ok(t) => text@.len() > 0 && t@ == text@,
            Err(e) => text@.len() == 0 && e@ == usage@,
        },
{
    if text.as_str().is_empty() {
        Err(owned(usage))
    } else {
        Ok(text)
    }
}

// ───────────────────────── first-run setup ─────────────────────────

/// All three permissions are granted.
pub fn permissions_complete(p: &PermissionSnapshot) -> (b: bool)
    ensures
        b == (p.accessibility && p.listen_events && p.post_events),
{
    p.accessibility && p.listen_events && p.post_events
}

/// The API key check of setup: a missing or empty key is an error, and so
/// is a key that the API refused; `verdict` is the outcome of trying the key
/// against the API (it is not looked at when there is no key to try).
pub fn check_api_key(key: Option<&str>, verdict: Result<(), String>) -> (r: Result<(), String>)
    ensures
        match key {
            None => r matches Err(e) && e@ == "missing GROQ_API_KEY"@,
            Some(k) => if k@.len() == 0 {
                r matches Err(e) && e@ == "GROQ_API_KEY is empty"@
            } else {
                match verdict {
                    Ok(()) => r is Ok,
                    Err(m) => r matches Err(e) && e@ == "GROQ_API_KEY was rejected: "@ + m@,
                }
            },
        },
{
    match key {
        None => Err(owned("missing GROQ_API_KEY")),
        Some(k) => if k.is_empty() {
            Err(owned("GROQ_API_KEY is empty"))
        } else {
            match verdict {
                Ok(()) => Ok(()),
                Err(m) => {
                    let mut v: Vec<char> = Vec::new();
                    push_str(&mut v, "GROQ_API_KEY was rejected: ");
                    push_str(&mut v, m.as_str());
                    Err(string_from_chars(&v))
                },
            }
        },
    }
}

// ───────────────────────── reports ─────────────────────────

fn line_with(out: &mut Vec<String>, a: &str, b: &str, c: &str)
    ensures
        string_views(final(out)@) == string_views(old(out)@).push(a@ + b@ + c@),
{
    let mut v: Vec<char> = Vec::new();
    push_str(&mut v, a);
    push_str(&mut v, b);
    push_str(&mut v, c);
    let ghost before = out@;
    out.push(string_from_chars(&v));
    assert(string_views(out@) =~= string_views(before).push(a@ + b@ + c@));
}

fn line(out: &mut Vec<String>, a: &str)
    ensures
        string_views(final(out)@) == string_views(old(out)@).push(a@),
{
    let ghost before = out@;
    out.push(owned(a));
    assert(string_views(out@) =~= string_views(before).push(a@));
}

/// The usage text, line by line; the configuration file's line appears
/// when its path is known.
pub open spec fn help_lines_spec(bin: Seq<char>, config_path: Option<Seq<char>>) -> Seq<Seq<char>> {
    seq![
        "OpenFlow \u{2013} open-source voice-to-text for macOS"@,
        ""@,
        "Usage:"@,
        "  "@ + bin + "                          Start with menubar icon (default)"@,
        "  "@ + bin + " live [key]               Start live dictation (hotkey name optional)"@,
        "  "@ + bin + " setup                    First-run: check permissions + test API key"@,
        "  "@ + bin + " permissions              Show permission status"@,
        "  "@ + bin + " focus                    Inspect focused element (AX API)"@,
        "  "@ + bin + " focus-after <seconds>    Same, after a delay"@,
        "  "@ + bin + " ax-debug                 Dump full AX debug report"@,
        "  "@ + bin + " paste <text>             Test paste injection"@,
        "  "@ + bin + " paste-after <s> <text>   Test paste injection after delay"@,
        "  "@ + bin + " monitor-hotkey [key]     Watch raw hotkey events"@,
        "  "@ + bin + " demo                     Dry run (no mic, no API calls)"@,
        ""@,
        "Hotkey names: right_command, f18, f19"@,
        ""@,
    ] + match config_path {
        Some(p) => seq!["Config file: "@ + p],
        None => Seq::<Seq<char>>::empty(),
    } + seq![
        "API key:     set GROQ_API_KEY in ~/.env or environment"@,
        ""@,
        "First run:"@,
        "  1. "@ + bin + " setup"@,
        "  2. "@ + bin + " live"@,
    ]
}

/// The lines of the usage text.
pub fn help_lines(bin_name: &str, config_path: Option<&str>) -> (r: Vec<String>)
    ensures
        string_views(r@) == help_lines_spec(
            bin_name@,
            match config_path {
                Some(p) => Some(p@),
                None => None,
            },
        ),
{
    let mut out: Vec<String> = Vec::new();
    line(&mut out, "OpenFlow \u{2013} open-source voice-to-text for macOS");
    line(&mut out, "");
    line(&mut out, "Usage:");
    line_with(&mut out, "  ", bin_name, "                          Start with menubar icon (default)");
    line_with(&mut out, "  ", bin_name, " live [key]               Start live dictation (hotkey name optional)");
    line_with(&mut out, "  ", bin_name, " setup                    First-run: check permissions + test API key");
    line_with(&mut out, "  ", bin_name, " permissions              Show permission status");
    line_with(&mut out, "  ", bin_name, " focus                    Inspect focused element (AX API)");
    line_with(&mut out, "  ", bin_name, " focus-after <seconds>    Same, after a delay");
    line_with(&mut out, "  ", bin_name, " ax-debug                 Dump full AX debug report");
    line_with(&mut out, "  ", bin_name, " paste <text>             Test paste injection");
    line_with(&mut out, "  ", bin_name, " paste-after <s> <text>   Test paste injection after delay");
    line_with(&mut out, "  ", bin_name, " monitor-hotkey [key]     Watch raw hotkey events");
    line_with(&mut out, "  ", bin_name, " demo                     Dry run (no mic, no API calls)");
    line(&mut out, "");
    line(&mut out, "Hotkey names: right_command, f18, f19");
    line(&mut out, "");
    match config_path {
        Some(p) => line_with(&mut out, "Config file: ", p, ""),
        None => {},
    }
    line(&mut out, "API key:     set GROQ_API_KEY in ~/.env or environment");
    line(&mut out, "");
    line(&mut out, "First run:");
    line_with(&mut out, "  1. ", bin_name, " setup");
    line_with(&mut out, "  2. ", bin_name, " live");
    proof {
        reveal_strlit("");
        match config_path {
            Some(p) => {
                assert("Config file: "@ + p@ + ""@ =~= "Config file: "@ + p@);
            },
            None => {},
        }
    }
    assert(string_views(out@) =~= help_lines_spec(
        bin_name@,
        match config_path {
            Some(p) => Some(p@),
            None => None,
        },
    ));
    out
}

pub open spec fn bool_text(b: bool) -> Seq<char> {
    if b {
        "true"@
    } else {
        "false"@
    }
}

/// The permission report: the three permissions before and after macOS was
/// asked to prompt for them.
pub open spec fn permission_report_spec(before: PermissionSnapshot, after: PermissionSnapshot) -> Seq<Seq<char>> {
    seq![
        "Permission status before prompt:"@,
        "  accessibility="@ + bool_text(before.accessibility),
        "  input_monitoring="@ + bool_text(before.listen_events),
        "  synthetic_events="@ + bool_text(before.post_events),
        ""@,
        "Permission status after prompt attempt:"@,
        "  accessibility="@ + bool_text(after.accessibility),
        "  input_monitoring="@ + bool_text(after.listen_events),
        "  synthetic_events="@ + bool_text(after.post_events),
        ""@,
        "If any value is false, open System Settings > Privacy & Security and grant access, then rerun."@,
    ]
}

fn bool_str(b: bool) -> (r: &'static str)
    ensures
        r@ == bool_text(b),
{
    if b {
        "true"
    } else {
        "false"
    }
}

/// The lines of the permission report.
pub fn permission_report(before: &PermissionSnapshot, after: &PermissionSnapshot) -> (r: Vec<String>)
    ensures
        string_views(r@) == permission_report_spec(*before, *after),
{
    let mut out: Vec<String> = Vec::new();
    line(&mut out, "Permission status before prompt:");
    line_with(&mut out, "  accessibility=", bool_str(before.accessibility), "");
    line_with(&mut out, "  input_monitoring=", bool_str(before.listen_events), "");
    line_with(&mut out, "  synthetic_events=", bool_str(before.post_events), "");
    line(&mut out, "");
    line(&mut out, "Permission status after prompt attempt:");
    line_with(&mut out, "  accessibility=", bool_str(after.accessibility), "");
    line_with(&mut out, "  input_monitoring=", bool_str(after.listen_events), "");
    line_with(&mut out, "  synthetic_events=", bool_str(after.post_events), "");
    line(&mut out, "");
    line(&mut out, "If any value is false, open System Settings > Privacy & Security and grant access, then rerun.");
    proof {
        reveal_strlit("");
    }
    assert(string_views(out@) =~= permission_report_spec(*before, *after));
    out
}

} // verus!
