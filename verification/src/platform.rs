//! The decisions of the macOS integration: hold-key events, permissions,
//! accessibility error names, and reading text out of the accessibility
//! tree. The system calls themselves live with the program.
use vstd::prelude::*;

use crate::domain::{take_at_most, take_chars, FocusTarget, HotkeyEvent, ScreenContext};
use crate::text::{
    chars_eq, chars_eq_str, chars_of, decimal, decimal_chars, push_chars, push_str,
    split_whitespace, string_from_chars, to_ascii_lower_chars, trim_whitespace, trim_ws,
    ascii_lower_seq, words, is_whitespace,
};

verus! {

// ───────────────────────── the hold key ─────────────────────────

pub const KEY_DOWN: u32 = 10;

pub const KEY_UP: u32 = 11;

pub const FLAGS_CHANGED: u32 = 12;

pub const TAP_DISABLED_BY_TIMEOUT: u32 = 0xFFFF_FFFE;

pub const TAP_DISABLED_BY_USER_INPUT: u32 = 0xFFFF_FFFF;

pub const FLAG_MASK_COMMAND: u64 = 0x0010_0000;

/// Shift, Control, Option and Command.
pub const ALL_MODIFIERS_MASK: u64 = 0x001E_0000;

pub const KEYCODE_F18: u16 = 0x4F;

pub const KEYCODE_F19: u16 = 0x50;

pub const KEYCODE_RIGHT_COMMAND: u16 = 0x36;

/// The key held while speaking.
#[derive(Debug, Clone, Copy, PartialEq, Eq, Structural)]
pub enum TriggerKey {
    F18,
    F19,
    RightCommand,
}

/// The result of `TriggerKey::from_name`.
pub open spec fn trigger_from_name_spec(name: Seq<char>) -> Result<TriggerKey, Seq<char>> {
    let n = ascii_lower_seq(name);
    if n == "f18"@ {
        Ok(TriggerKey::F18)
    } else if n == "f19"@ {
        Ok(TriggerKey::F19)
    } else if n == "right_command"@ || n == "right-command"@ || n == "rightcmd"@ {
        Ok(TriggerKey::RightCommand)
    } else {
        Err("unsupported hold key '"@ + n + "'. use 'f18' or 'right_command'"@)
    }
}

pub open spec fn keycode_spec(k: TriggerKey) -> u16 {
    match k {
        TriggerKey::F18 => KEYCODE_F18,
        TriggerKey::F19 => KEYCODE_F19,
        TriggerKey::RightCommand => KEYCODE_RIGHT_COMMAND,
    }
}

/// The hold-key edge that an event carries, if any: F18 and F19 report key
/// down and up; right Command reports modifier changes, pressed while the
/// Command flag is set.
pub open spec fn matching_event_spec(k: TriggerKey, event_type: u32, keycode: u16, flags: u64) -> Option<
    HotkeyEvent,
> {
    if keycode != keycode_spec(k) {
        None
    } else {
        match k {
            TriggerKey::F18 | TriggerKey::F19 => if event_type == KEY_DOWN {
                Some(HotkeyEvent::Pressed)
            } else if event_type == KEY_UP {
                Some(HotkeyEvent::Released)
            } else {
                None
            },
            TriggerKey::RightCommand => if event_type != FLAGS_CHANGED {
                None
            } else if flags & FLAG_MASK_COMMAND != 0 {
                Some(HotkeyEvent::Pressed)
            } else {
                Some(HotkeyEvent::Released)
            },
        }
    }
}

impl TriggerKey {
    /// Parses a key name, ignoring ASCII case.
    pub fn from_name(value: &str) -> (r: Result<TriggerKey, String>)
        ensures
            match (r, trigger_from_name_spec(value@)) {
                (Ok(a), Ok(b)) => a == b,
                (Err(e), Err(m)) => e@ == m,
                _ => false,
            },
    {
        let n = to_ascii_lower_chars(&chars_of(value));
        if chars_eq_str(&n, "f18") {
            Ok(TriggerKey::F18)
        } else if chars_eq_str(&n, "f19") {
            Ok(TriggerKey::F19)
        } else if chars_eq_str(&n, "right_command") || chars_eq_str(&n, "right-command")
            || chars_eq_str(&n, "rightcmd") {
            Ok(TriggerKey::RightCommand)
        } else {
            let mut msg: Vec<char> = Vec::new();
            push_str(&mut msg, "unsupported hold key '");
            push_chars(&mut msg, &n);
            push_str(&mut msg, "'. use 'f18' or 'right_command'");
            Err(string_from_chars(&msg))
        }
    }

    /// The virtual key code of the key.
    pub fn keycode(self) -> (c: u16)
        ensures
            c == keycode_spec(self),
    {
        match self {
            TriggerKey::F18 => KEYCODE_F18,
            TriggerKey::F19 => KEYCODE_F19,
            TriggerKey::RightCommand => KEYCODE_RIGHT_COMMAND,
        }
    }

    /// The hold-key edge carried by a keyboard event.
    pub fn matching_event(self, event_type: u32, keycode: u16, flags: u64) -> (r: Option<
        HotkeyEvent,
    >)
        ensures
            r == matching_event_spec(self, event_type, keycode, flags),
    {
        if keycode != self.keycode() {
            return None;
        }
        match self {
            TriggerKey::F18 | TriggerKey::F19 => if event_type == KEY_DOWN {
                Some(HotkeyEvent::Pressed)
            } else if event_type == KEY_UP {
                Some(HotkeyEvent::Released)
            } else {
                None
            },
            TriggerKey::RightCommand => {
                if event_type != FLAGS_CHANGED {
                    return None;
                }
                if flags & FLAG_MASK_COMMAND != 0 {
                    Some(HotkeyEvent::Pressed)
                } else {
                    Some(HotkeyEvent::Released)
                }
            },
        }
    }

    /// The number under which the event tap stores the key.
    pub fn kind_code(self) -> (c: usize)
        ensures
            c == kind_code_spec(self),
    {
        match self {
            TriggerKey::F18 => 0,
            TriggerKey::RightCommand => 1,
            TriggerKey::F19 => 2,
        }
    }

    /// The key stored under `code`: 0 is F18, 2 is F19, anything else right
    /// Command.
    pub fn from_kind_code(code: usize) -> (k: TriggerKey)
        ensures
            k == key_of_kind(code),
    {
        if code == 0 {
            TriggerKey::F18
        } else if code == 2 {
            TriggerKey::F19
        } else {
            TriggerKey::RightCommand
        }
    }
}

pub open spec fn kind_code_spec(k: TriggerKey) -> usize {
    match k {
        TriggerKey::F18 => 0,
        TriggerKey::RightCommand => 1,
        TriggerKey::F19 => 2,
    }
}

pub open spec fn key_of_kind(code: usize) -> TriggerKey {
    if code == 0 {
        TriggerKey::F18
    } else if code == 2 {
        TriggerKey::F19
    } else {
        TriggerKey::RightCommand
    }
}

/// Storing a key's number and reading it back gives the same key.
pub proof fn lemma_kind_code_round_trip(k: TriggerKey)
    ensures
        key_of_kind(kind_code_spec(k)) == k,
{
}

/// What the event tap does with one event.
#[derive(Debug, Clone, Copy, PartialEq, Eq, Structural)]
pub enum TapDecision {
    /// The system disabled the tap: turn it back on, let the event through.
    ReEnableTap,
    /// Not the hold key: let the event through.
    PassThrough,
    /// The hold key: report the edge, and swallow the event when asked to.
    Deliver { event: HotkeyEvent, swallow: bool },
}

pub open spec fn tap_decision_spec(kind: usize, event_type: u32, keycode: u16, flags: u64, suppress: bool) -> TapDecision {
    if event_type == TAP_DISABLED_BY_TIMEOUT || event_type == TAP_DISABLED_BY_USER_INPUT {
        TapDecision::ReEnableTap
    } else {
        match matching_event_spec(key_of_kind(kind), event_type, keycode, flags) {
            Some(e) => TapDecision::Deliver { event: e, swallow: suppress },
            None => TapDecision::PassThrough,
        }
    }
}

/// Decides what the event tap does with an event.
pub fn tap_decision(kind: usize, event_type: u32, keycode: u16, flags: u64, suppress: bool) -> (d: TapDecision)
    ensures
        d == tap_decision_spec(kind, event_type, keycode, flags, suppress),
{
    if event_type == TAP_DISABLED_BY_TIMEOUT || event_type == TAP_DISABLED_BY_USER_INPUT {
        return TapDecision::ReEnableTap;
    }
    let k = TriggerKey::from_kind_code(kind);
    match k.matching_event(event_type, keycode, flags) {
        Some(e) => TapDecision::Deliver { event: e, swallow: suppress },
        None => TapDecision::PassThrough,
    }
}

/// Whether no modifier key is held.
pub fn modifiers_released(flags: u64) -> (b: bool)
    ensures
        b == (flags & ALL_MODIFIERS_MASK == 0),
{
    flags & ALL_MODIFIERS_MASK == 0
}

// ───────────────────────── permissions ─────────────────────────

#[derive(Debug, Clone, Copy)]
pub struct PermissionSnapshot {
    pub accessibility: bool,
    pub listen_events: bool,
    pub post_events: bool,
}

/// The three permissions the assistant needs.
#[derive(Debug, Clone, Copy, PartialEq, Eq, Structural)]
pub enum Permission {
    Accessibility,
    ListenEvents,
    PostEvents,
}

pub open spec fn permission_message(p: Permission) -> Seq<char> {
    match p {
        Permission::Accessibility => "Accessibility permission is required. Grant it in System Settings > Privacy & Security > Accessibility, then rerun the command."@,
        Permission::ListenEvents => "Input Monitoring permission is required for global key capture. Grant it in System Settings > Privacy & Security > Input Monitoring, then rerun the command."@,
        Permission::PostEvents => "macOS denied synthetic key events. Grant access in System Settings > Privacy & Security > Accessibility or the relevant automation prompt, then rerun the command."@,
    }
}

/// Success when the permission is granted, else the message that tells
/// the user where to grant it.
pub fn require_permission(granted: bool, p: Permission) -> (r: Result<(), String>)
    ensures
        r is Ok <==> granted,
        r matches Err(e) ==> e@ == permission_message(p),
{
    if granted {
        return Ok(());
    }
    let msg = match p {
        Permission::Accessibility => "Accessibility permission is required. Grant it in System Settings > Privacy & Security > Accessibility, then rerun the command.",
        Permission::ListenEvents => "Input Monitoring permission is required for global key capture. Grant it in System Settings > Privacy & Security > Input Monitoring, then rerun the command.",
        Permission::PostEvents => "macOS denied synthetic key events. Grant access in System Settings > Privacy & Security > Accessibility or the relevant automation prompt, then rerun the command.",
    };
    Err(string_from_chars(&chars_of(msg)))
}

/// The three permissions as the system reported them.
pub fn permission_snapshot(accessibility: bool, listen_events: bool, post_events: bool) -> (p: PermissionSnapshot)
    ensures
        p.accessibility == accessibility,
        p.listen_events == listen_events,
        p.post_events == post_events,
{
    PermissionSnapshot { accessibility, listen_events, post_events }
}

/// Accessibility access, needed to read the focused element.
pub fn ensure_accessibility(granted: bool) -> (r: Result<(), String>)
    ensures
        r is Ok <==> granted,
        r matches Err(e) ==> e@ == permission_message(Permission::Accessibility),
{
    require_permission(granted, Permission::Accessibility)
}

/// Input Monitoring, needed to watch the hold key.
pub fn ensure_listen_access(granted: bool) -> (r: Result<(), String>)
    ensures
        r is Ok <==> granted,
        r matches Err(e) ==> e@ == permission_message(Permission::ListenEvents),
{
    require_permission(granted, Permission::ListenEvents)
}

/// Access to post synthetic key events, needed to paste.
pub fn ensure_post_access(granted: bool) -> (r: Result<(), String>)
    ensures
        r is Ok <==> granted,
        r matches Err(e) ==> e@ == permission_message(Permission::PostEvents),
{
    require_permission(granted, Permission::PostEvents)
}

// ───────────────────────── bringing an application back ─────────────────────────

pub open spec fn no_such_app_message(pid: i32) -> Seq<char> {
    "no running application with pid "@ + signed_decimal(pid as int)
}

pub open spec fn activation_refused_message(pid: i32) -> Seq<char> {
    "activateWithOptions: returned false for pid "@ + signed_decimal(pid as int)
}

/// The outcome of bringing the application with `pid` to the front, given
/// whether a running application has that pid and whether it agreed to
/// activate.
pub fn activate_pid(pid: i32, found: bool, activated: bool) -> (r: Result<(), String>)
    ensures
        r is Ok <==> found && activated,
        r matches Err(e) ==> e@ == if found {
            activation_refused_message(pid)
        } else {
            no_such_app_message(pid)
        },
{
    let mut out: Vec<char> = Vec::new();
    if !found {
        push_str(&mut out, "no running application with pid ");
    } else if activated {
        return Ok(());
    } else {
        push_str(&mut out, "activateWithOptions: returned false for pid ");
    }
    push_chars(&mut out, &signed_decimal_chars(pid));
    Err(string_from_chars(&out))
}

// ───────────────────────── pasting ─────────────────────────

/// One step of a paste, performed by the program in order; a step that
/// fails ends the paste with its error.
pub enum PasteStep {
    /// Wait up to this many milliseconds for Shift, Control, Option and
    /// Command to be released, then go on either way.
    AwaitModifiersReleased(u64),
    /// Put this text on the general pasteboard.
    WriteClipboard(String),
    Sleep(u64),
    /// Post Command-V.
    PostPaste,
    /// Extend the selection this many characters to the left.
    SelectLeft(usize),
    /// Put the earlier text back on the pasteboard; a failure here is
    /// ignored, the paste has already happened.
    RestoreClipboard(String),
}

/// A paste step as contracts speak of it.
pub enum PasteStepView {
    AwaitModifiersReleased(u64),
    WriteClipboard(Seq<char>),
    Sleep(u64),
    PostPaste,
    SelectLeft(usize),
    RestoreClipboard(Seq<char>),
}

pub open spec fn paste_step_view(s: PasteStep) -> PasteStepView {
    match s {
        PasteStep::AwaitModifiersReleased(ms) => PasteStepView::AwaitModifiersReleased(ms),
        PasteStep::WriteClipboard(t) => PasteStepView::WriteClipboard(t@),
        PasteStep::Sleep(ms) => PasteStepView::Sleep(ms),
        PasteStep::PostPaste => PasteStepView::PostPaste,
        PasteStep::SelectLeft(n) => PasteStepView::SelectLeft(n),
        PasteStep::RestoreClipboard(t) => PasteStepView::RestoreClipboard(t@),
    }
}

pub open spec fn paste_steps_view(v: Seq<PasteStep>) -> Seq<PasteStepView> {
    v.map_values(|s: PasteStep| paste_step_view(s))
}

/// Pasting through the clipboard: wait for the modifiers, put the text on
/// the pasteboard, let it settle, press Command-V, and put back what the
/// pasteboard held before when that was text.
pub open spec fn clipboard_paste_plan(text: Seq<char>, prior: Option<Seq<char>>) -> Seq<PasteStepView> {
    seq![
        PasteStepView::AwaitModifiersReleased(500),
        PasteStepView::WriteClipboard(text),
        PasteStepView::Sleep(60),
        PasteStepView::PostPaste,
    ] + match prior {
        Some(p) => seq![PasteStepView::Sleep(120), PasteStepView::RestoreClipboard(p)],
        None => Seq::<PasteStepView>::empty(),
    }
}

/// Replacing the last `n` characters: select them leftwards, pause so the
/// application sees the selection, and paste over it; with nothing to
/// select, a plain paste.
pub open spec fn replace_plan(n: usize, text: Seq<char>, prior: Option<Seq<char>>) -> Seq<PasteStepView> {
    if n == 0 {
        clipboard_paste_plan(text, prior)
    } else {
        seq![PasteStepView::AwaitModifiersReleased(200), PasteStepView::SelectLeft(n), PasteStepView::Sleep(15)]
            + clipboard_paste_plan(text, prior)
    }
}

pub open spec fn option_view(o: Option<String>) -> Option<Seq<char>> {
    match o {
        Some(s) => Some(s@),
        None => None,
    }
}

fn push_clipboard_paste(out: &mut Vec<PasteStep>, text: &str, prior: Option<String>)
    ensures
        paste_steps_view(final(out)@) == paste_steps_view(old(out)@) + clipboard_paste_plan(
            text@,
            option_view(prior),
        ),
{
    let ghost start = out@;
    let ghost pv = option_view(prior);
    out.push(PasteStep::AwaitModifiersReleased(500));
    out.push(PasteStep::WriteClipboard(string_from_chars(&chars_of(text))));
    out.push(PasteStep::Sleep(60));
    out.push(PasteStep::PostPaste);
    if let Some(p) = prior {
        out.push(PasteStep::Sleep(120));
        out.push(PasteStep::RestoreClipboard(p));
    }
    assert(paste_steps_view(out@) =~= paste_steps_view(start) + clipboard_paste_plan(text@, pv));
}

/// The steps that paste `text` into the focused application; `prior` is
/// the text the pasteboard held before, if it held text.
pub fn paste_text_via_clipboard(text: &str, prior: Option<String>) -> (v: Vec<PasteStep>)
    ensures
        paste_steps_view(v@) == clipboard_paste_plan(text@, option_view(prior)),
{
    let mut v: Vec<PasteStep> = Vec::new();
    push_clipboard_paste(&mut v, text, prior);
    assert(paste_steps_view(Seq::<PasteStep>::empty()) =~= Seq::<PasteStepView>::empty());
    assert(Seq::<PasteStepView>::empty() + clipboard_paste_plan(text@, option_view(prior))
        =~= clipboard_paste_plan(text@, option_view(prior)));
    v
}

/// The steps that replace the last `prev_char_count` characters at the
/// focus with `new_text`.
pub fn replace_last_chars(prev_char_count: usize, new_text: &str, prior: Option<String>) -> (v: Vec<PasteStep>)
    ensures
        paste_steps_view(v@) == replace_plan(prev_char_count, new_text@, option_view(prior)),
{
    let mut v: Vec<PasteStep> = Vec::new();
    let ghost pv = option_view(prior);
    if prev_char_count > 0 {
        v.push(PasteStep::AwaitModifiersReleased(200));
        v.push(PasteStep::SelectLeft(prev_char_count));
        v.push(PasteStep::Sleep(15));
    }
    let ghost before = v@;
    push_clipboard_paste(&mut v, new_text, prior);
    proof {
        if prev_char_count == 0 {
            assert(paste_steps_view(before) =~= Seq::<PasteStepView>::empty());
            assert(Seq::<PasteStepView>::empty() + clipboard_paste_plan(new_text@, pv)
                =~= clipboard_paste_plan(new_text@, pv));
        } else {
            assert(paste_steps_view(before) =~= seq![
                PasteStepView::AwaitModifiersReleased(200),
                PasteStepView::SelectLeft(prev_char_count),
                PasteStepView::Sleep(15),
            ]);
        }
    }
    v
}

// ───────────────────────── synthetic key presses ─────────────────────────

pub const KEYCODE_COMMAND: u16 = 0x37;

pub const KEYCODE_SHIFT: u16 = 0x38;

pub const KEYCODE_V: u16 = 0x09;

pub const KEYCODE_LEFT_ARROW: u16 = 0x7B;

pub const FLAG_MASK_SHIFT: u64 = 0x0002_0000;

/// One synthetic key event: the key, whether it goes down, the modifier
/// flags it carries, and how long to wait after posting it.
pub struct KeyStroke {
    pub keycode: u16,
    pub key_down: bool,
    pub flags: u64,
    pub pause_ms: u64,
}

pub open spec fn stroke_view(k: KeyStroke) -> (u16, bool, u64, u64) {
    (k.keycode, k.key_down, k.flags, k.pause_ms)
}

pub open spec fn strokes_view(v: Seq<KeyStroke>) -> Seq<(u16, bool, u64, u64)> {
    v.map_values(|k: KeyStroke| stroke_view(k))
}

/// Command-V: Command down, V down, V up, Command up, 8 ms apart; Command
/// is held on all but the last.
pub open spec fn command_v_plan() -> Seq<(u16, bool, u64, u64)> {
    seq![
        (KEYCODE_COMMAND, true, FLAG_MASK_COMMAND, 8u64),
        (KEYCODE_V, true, FLAG_MASK_COMMAND, 8u64),
        (KEYCODE_V, false, FLAG_MASK_COMMAND, 8u64),
        (KEYCODE_COMMAND, false, 0u64, 8u64),
    ]
}

/// Left arrow down and up `n` times, with Shift held.
pub open spec fn left_presses(n: nat) -> Seq<(u16, bool, u64, u64)> {
    Seq::new(2 * n, |i: int| (KEYCODE_LEFT_ARROW, i % 2 == 0, FLAG_MASK_SHIFT, 0u64))
}

/// Shift down, `n` presses of Left arrow, Shift up; a short pause after
/// each Shift event.
pub open spec fn shift_left_plan(n: nat) -> Seq<(u16, bool, u64, u64)> {
    seq![(KEYCODE_SHIFT, true, FLAG_MASK_SHIFT, 8u64)] + left_presses(n) + seq![(KEYCODE_SHIFT, false, 0u64, 8u64)]
}

fn stroke(keycode: u16, key_down: bool, flags: u64, pause_ms: u64) -> (k: KeyStroke)
    ensures
        stroke_view(k) == (keycode, key_down, flags, pause_ms),
{
    KeyStroke { keycode, key_down, flags, pause_ms }
}

/// The key events of Command-V.
pub fn command_v_strokes() -> (v: Vec<KeyStroke>)
    ensures
        strokes_view(v@) == command_v_plan(),
{
    let mut v: Vec<KeyStroke> = Vec::new();
    v.push(stroke(KEYCODE_COMMAND, true, FLAG_MASK_COMMAND, 8));
    v.push(stroke(KEYCODE_V, true, FLAG_MASK_COMMAND, 8));
    v.push(stroke(KEYCODE_V, false, FLAG_MASK_COMMAND, 8));
    v.push(stroke(KEYCODE_COMMAND, false, 0, 8));
    assert(strokes_view(v@) =~= command_v_plan());
    v
}

/// The key events that extend the selection `n` characters to the left.
pub fn shift_left_strokes(n: usize) -> (v: Vec<KeyStroke>)
    ensures
        strokes_view(v@) == shift_left_plan(n as nat),
{
    let mut v: Vec<KeyStroke> = Vec::new();
    v.push(stroke(KEYCODE_SHIFT, true, FLAG_MASK_SHIFT, 8));
    let ghost head = seq![(KEYCODE_SHIFT, true, FLAG_MASK_SHIFT, 8u64)];
    assert(strokes_view(v@) =~= head + left_presses(0));
    let mut i: usize = 0;
    while i < n
        invariant
            i <= n,
            head == seq![(KEYCODE_SHIFT, true, FLAG_MASK_SHIFT, 8u64)],
            strokes_view(v@) == head + left_presses(i as nat),
        decreases n - i,
    {
        let ghost before = v@;
        v.push(stroke(KEYCODE_LEFT_ARROW, true, FLAG_MASK_SHIFT, 0));
        v.push(stroke(KEYCODE_LEFT_ARROW, false, FLAG_MASK_SHIFT, 0));
        proof {
            let d = (KEYCODE_LEFT_ARROW, true, FLAG_MASK_SHIFT, 0u64);
            let u = (KEYCODE_LEFT_ARROW, false, FLAG_MASK_SHIFT, 0u64);
            assert(strokes_view(v@) =~= strokes_view(before).push(d).push(u));
            assert(left_presses((i + 1) as nat) =~= left_presses(i as nat).push(d).push(u));
            assert(head + left_presses((i + 1) as nat) =~= (head + left_presses(i as nat)).push(d).push(u));
        }
        i += 1;
    }
    v.push(stroke(KEYCODE_SHIFT, false, 0, 8));
    assert(strokes_view(v@) =~= shift_left_plan(n as nat));
    v
}

// ───────────────────────── focus snapshots ─────────────────────────

/// What the accessibility API reported about the focused element.
#[derive(Debug, Clone)]
pub struct FocusSnapshot {
    pub app_name: String,
    pub window_title: String,
    pub focused_role: String,
    pub focused_value_preview: String,
    pub visible_text: String,
}

fn copy_string(s: &String) -> (r: String)
    ensures
        r@ == s@,
{
    string_from_chars(&chars_of(s.as_str()))
}

impl FocusSnapshot {
    /// The paste target of the snapshot: its app and the focused role.
    pub fn focus_target(&self) -> (t: FocusTarget)
        ensures
            t.app_name@ == self.app_name@,
            t.element_role@ == self.focused_role@,
    {
        FocusTarget { app_name: copy_string(&self.app_name), element_role: copy_string(&self.focused_role) }
    }

    /// The screen context of the snapshot, field for field.
    pub fn screen_context(&self) -> (c: ScreenContext)
        ensures
            c.app_name@ == self.app_name@,
            c.window_title@ == self.window_title@,
            c.focused_role@ == self.focused_role@,
            c.focused_value_preview@ == self.focused_value_preview@,
            c.visible_text@ == self.visible_text@,
    {
        ScreenContext {
            app_name: copy_string(&self.app_name),
            window_title: copy_string(&self.window_title),
            focused_role: copy_string(&self.focused_role),
            focused_value_preview: copy_string(&self.focused_value_preview),
            visible_text: copy_string(&self.visible_text),
        }
    }
}

/// Diagnostics about why no focused element could be read.
#[derive(Debug, Clone)]
pub struct AxDebugReport {
    pub frontmost_app_name: Option<String>,
    pub frontmost_pid: Option<i32>,
    pub system_focused_application_error: String,
    pub system_focused_element_error: String,
    pub app_focused_window_error: Option<String>,
    pub app_focused_element_error: Option<String>,
    pub system_attributes: Vec<String>,
}

// ───────────────────────── accessibility errors ─────────────────────────

pub open spec fn ax_error_name_spec(error: i32) -> Seq<char> {
    if error == 0 {
        "success"@
    } else if error == -25200 {
        "failure"@
    } else if error == -25201 {
        "illegal_argument"@
    } else if error == -25202 {
        "invalid_ui_element"@
    } else if error == -25203 {
        "invalid_observer"@
    } else if error == -25204 {
        "cannot_complete"@
    } else if error == -25205 {
        "attribute_unsupported"@
    } else if error == -25206 {
        "action_unsupported"@
    } else if error == -25207 {
        "notification_unsupported"@
    } else if error == -25208 {
        "not_implemented"@
    } else if error == -25209 {
        "notification_already_registered"@
    } else if error == -25210 {
        "notification_not_registered"@
    } else if error == -25211 {
        "api_disabled"@
    } else if error == -25212 {
        "no_value"@
    } else if error == -25213 {
        "parameterized_attribute_unsupported"@
    } else if error == -25214 {
        "not_enough_precision"@
    } else {
        "unknown"@
    }
}

/// The name of an accessibility error code.
pub fn ax_error_name(error: i32) -> (r: &'static str)
    ensures
        r@ == ax_error_name_spec(error),
{
    if error == 0 {
        "success"
    } else if error == -25200 {
        "failure"
    } else if error == -25201 {
        "illegal_argument"
    } else if error == -25202 {
        "invalid_ui_element"
    } else if error == -25203 {
        "invalid_observer"
    } else if error == -25204 {
        "cannot_complete"
    } else if error == -25205 {
        "attribute_unsupported"
    } else if error == -25206 {
        "action_unsupported"
    } else if error == -25207 {
        "notification_unsupported"
    } else if error == -25208 {
        "not_implemented"
    } else if error == -25209 {
        "notification_already_registered"
    } else if error == -25210 {
        "notification_not_registered"
    } else if error == -25211 {
        "api_disabled"
    } else if error == -25212 {
        "no_value"
    } else if error == -25213 {
        "parameterized_attribute_unsupported"
    } else if error == -25214 {
        "not_enough_precision"
    } else {
        "unknown"
    }
}

/// `n` in decimal, with a minus sign when negative.
pub open spec fn signed_decimal(n: int) -> Seq<char> {
    if n < 0 {
        "-"@ + decimal((-n) as nat)
    } else {
        decimal(n as nat)
    }
}

pub fn signed_decimal_chars(n: i32) -> (v: Vec<char>)
    ensures
        v@ == signed_decimal(n as int),
{
    let wide = n as i64;
    if wide < 0 {
        let mut v: Vec<char> = Vec::new();
        push_str(&mut v, "-");
        push_chars(&mut v, &decimal_chars((-wide) as u64));
        v
    } else {
        decimal_chars(wide as u64)
    }
}

/// `name (code)`, as the diagnostics print an error.
pub fn ax_error_label(error: i32) -> (r: String)
    ensures
        r@ == ax_error_name_spec(error) + " ("@ + signed_decimal(error as int) + ")"@,
{
    let mut out: Vec<char> = Vec::new();
    push_str(&mut out, ax_error_name(error));
    push_str(&mut out, " (");
    push_chars(&mut out, &signed_decimal_chars(error));
    push_str(&mut out, ")");
    string_from_chars(&out)
}

// ───────────────────────── text cleanup ─────────────────────────

pub open spec fn opt_view(o: Option<String>) -> Option<Seq<char>> {
    match o {
        Some(s) => Some(s@),
        None => None,
    }
}

pub open spec fn is_blank(s: Seq<char>) -> bool {
    trim_ws(s).len() == 0
}

/// The first value that is present and not blank.
pub open spec fn first_non_empty_spec(values: Seq<Option<Seq<char>>>) -> Option<Seq<char>>
    decreases values.len(),
{
    if values.len() == 0 {
        None
    } else {
        match values[0] {
            Some(v) if !is_blank(v) => Some(v),
            _ => first_non_empty_spec(values.drop_first()),
        }
    }
}

pub fn first_non_empty(values: &Vec<Option<String>>) -> (r: Option<String>)
    ensures
        opt_view(r) == first_non_empty_spec(values@.map_values(|o: Option<String>| opt_view(o))),
{
    let ghost vs = values@.map_values(|o: Option<String>| opt_view(o));
    assert(vs.skip(0) =~= vs);
    let mut i: usize = 0;
    while i < values.len()
        invariant
            i <= values@.len(),
            vs == values@.map_values(|o: Option<String>| opt_view(o)),
            first_non_empty_spec(vs) == first_non_empty_spec(vs.skip(i as int)),
        decreases values@.len() - i,
    {
        assert(vs.skip(i as int)[0] == opt_view(values@[i as int]));
        assert(vs.skip(i as int).drop_first() =~= vs.skip(i + 1));
        match &values[i] {
            Some(v) => {
                let t = trim_whitespace(&chars_of(v.as_str()));
                if t.len() > 0 {
                    return Some(copy_string(v));
                }
            },
            None => {},
        }
        i += 1;
    }
    None
}

/// The app name to report: the accessibility title, else the frontmost
/// app's name, else `pid:<pid>`, else `Unknown`.
pub open spec fn app_name_spec(ax_title: Option<Seq<char>>, frontmost: Option<Seq<char>>, pid: Option<i32>) -> Seq<char> {
    let hint = match pid {
        Some(p) => Some("pid:"@ + signed_decimal(p as int)),
        None => None,
    };
    match first_non_empty_spec(seq![ax_title, frontmost, hint]) {
        Some(n) => n,
        None => "Unknown"@,
    }
}

pub fn resolve_app_name(ax_title: Option<String>, frontmost: Option<String>, pid: Option<i32>) -> (r: String)
    ensures
        r@ == app_name_spec(opt_view(ax_title), opt_view(frontmost), pid),
{
    let hint = match pid {
        Some(p) => {
            let mut v: Vec<char> = Vec::new();
            push_str(&mut v, "pid:");
            push_chars(&mut v, &signed_decimal_chars(p));
            Some(string_from_chars(&v))
        },
        None => None,
    };
    let ghost hv = opt_view(hint);
    let ghost tv = opt_view(ax_title);
    let ghost fv = opt_view(frontmost);
    let mut values: Vec<Option<String>> = Vec::new();
    values.push(ax_title);
    values.push(frontmost);
    values.push(hint);
    assert(values@.map_values(|o: Option<String>| opt_view(o)) =~= seq![tv, fv, hv]);
    match first_non_empty(&values) {
        Some(n) => n,
        None => string_from_chars(&chars_of("Unknown")),
    }
}

/// Invisible direction and width marks that some apps put into their text.
pub open spec fn is_format_mark(c: char) -> bool {
    let u = c as u32;
    (0x200b <= u <= 0x200f) || (0x202a <= u <= 0x202f) || u == 0xfeff
}

pub open spec fn not_mark_pred() -> spec_fn(char) -> bool {
    |c: char| !is_format_mark(c)
}

pub open spec fn strip_marks(s: Seq<char>) -> Seq<char> {
    s.filter(not_mark_pred())
}

pub fn is_format_mark_char(c: char) -> (b: bool)
    ensures
        b == is_format_mark(c),
{
    let u = c as u32;
    (0x200b <= u && u <= 0x200f) || (0x202a <= u && u <= 0x202f) || u == 0xfeff
}

/// Removes the invisible formatting marks.
pub fn strip_format_marks(v: &Vec<char>) -> (r: Vec<char>)
    ensures
        r@ == strip_marks(v@),
{
    let mut out: Vec<char> = Vec::new();
    let mut i: usize = 0;
    while i < v.len()
        invariant
            i <= v.len(),
            out@ == strip_marks(v@.take(i as int)),
        decreases v.len() - i,
    {
        assert(v@.take(i + 1) =~= v@.take(i as int).push(v@[i as int]));
        proof {
            v@.take(i as int).lemma_filter_push(v@[i as int], not_mark_pred());
        }
        if !is_format_mark_char(v[i]) {
            out.push(v[i]);
        }
        i += 1;
    }
    assert(v@.take(v.len() as int) =~= v@);
    out
}

/// The words of `ws` joined by single spaces.
pub open spec fn join_words(ws: Seq<Seq<char>>) -> Seq<char>
    decreases ws.len(),
{
    if ws.len() == 0 {
        seq![]
    } else if ws.len() == 1 {
        ws[0]
    } else {
        join_words(ws.drop_last()) + " "@ + ws.last()
    }
}

/// Marks removed, runs of whitespace collapsed to one space, ends trimmed,
/// cut to `max_chars` characters.
pub open spec fn normalize_spec(value: Seq<char>, max_chars: nat) -> Seq<char> {
    take_at_most(join_words(words(strip_marks(value))), max_chars)
}

pub fn normalize_and_truncate(value: &str, max_chars: usize) -> (r: String)
    ensures
        r@ == normalize_spec(value@, max_chars as nat),
{
    let stripped = strip_format_marks(&chars_of(value));
    let ws = split_whitespace(&stripped);
    let ghost wv = words(stripped@);
    let mut out: Vec<char> = Vec::new();
    let mut i: usize = 0;
    while i < ws.len()
        invariant
            i <= ws@.len(),
            ws@.len() == wv.len(),
            wv == words(stripped@),
            forall|k: int| 0 <= k < ws@.len() ==> (#[trigger] ws@[k])@ == wv[k],
            out@ == join_words(wv.take(i as int)),
        decreases ws@.len() - i,
    {
        assert(wv.take(i + 1).drop_last() =~= wv.take(i as int));
        assert(wv.take(i + 1).last() == ws@[i as int]@);
        if i > 0 {
            push_str(&mut out, " ");
        }
        push_chars(&mut out, &ws[i]);
        proof {
            if i == 0 {
                assert(wv.take(1).len() == 1);
                assert(out@ =~= wv.take(1)[0]);
            }
        }
        i += 1;
    }
    assert(wv.take(ws@.len() as int) =~= wv);
    let cut = take_chars(&out, max_chars);
    string_from_chars(&cut)
}

/// The preview of the focused element: the selected text, else the text
/// of its visible range, else its value, whichever first is not blank,
/// normalized; none when all are blank.
pub open spec fn focus_preview_spec(
    selected: Option<Seq<char>>,
    range_text: Option<Seq<char>>,
    value: Option<Seq<char>>,
    max_chars: nat,
) -> Option<Seq<char>> {
    match first_non_empty_spec(seq![selected, range_text, value]) {
        Some(t) => Some(normalize_spec(t, max_chars)),
        None => None,
    }
}

pub fn focus_preview(
    selected: Option<String>,
    range_text: Option<String>,
    value: Option<String>,
    max_chars: usize,
) -> (r: Option<String>)
    ensures
        opt_view(r) == focus_preview_spec(opt_view(selected), opt_view(range_text), opt_view(value), max_chars as nat),
{
    let ghost sv = opt_view(selected);
    let ghost rv = opt_view(range_text);
    let ghost vv = opt_view(value);
    let mut values: Vec<Option<String>> = Vec::new();
    values.push(selected);
    values.push(range_text);
    values.push(value);
    assert(values@.map_values(|o: Option<String>| opt_view(o)) =~= seq![sv, rv, vv]);
    match first_non_empty(&values) {
        Some(t) => Some(normalize_and_truncate(t.as_str(), max_chars)),
        None => None,
    }
}

/// Present and not blank.
pub open spec fn has_text(o: Option<Seq<char>>) -> bool {
    o is Some && !is_blank(o->0)
}

/// The preview takes the first source that is present and not blank, in
/// this order: the selection, the text of the visible range, the value;
/// that text is normalized, and there is no preview when all three are
/// absent or blank.
pub proof fn lemma_focus_preview_priority(
    selected: Option<Seq<char>>,
    range_text: Option<Seq<char>>,
    value: Option<Seq<char>>,
    max_chars: nat,
)
    ensures
        ({
            let r = focus_preview_spec(selected, range_text, value, max_chars);
            &&& has_text(selected) ==> r == Some(normalize_spec(selected->0, max_chars))
            &&& !has_text(selected) && has_text(range_text) ==> r == Some(
                normalize_spec(range_text->0, max_chars),
            )
            &&& !has_text(selected) && !has_text(range_text) && has_text(value) ==> r == Some(
                normalize_spec(value->0, max_chars),
            )
            &&& !has_text(selected) && !has_text(range_text) && !has_text(value) ==> r is None
        }),
{
    let all = seq![selected, range_text, value];
    assert(all[0] == selected);
    assert(all.drop_first() =~= seq![range_text, value]);
    assert(all.drop_first()[0] == range_text);
    assert(all.drop_first().drop_first() =~= seq![value]);
    assert(all.drop_first().drop_first()[0] == value);
    assert(all.drop_first().drop_first().drop_first() =~= Seq::<Option<Seq<char>>>::empty());
    reveal_with_fuel(first_non_empty_spec, 4);
}

// ───────────────────────── climbing to the content panel ─────────────────────────

/// How far up from the focused element the anchor search goes.
pub const MAX_CLIMB: usize = 20;

/// Roles of layout containers that split a window into panels.
pub open spec fn is_layout_role_spec(role: Seq<char>) -> bool {
    role == "AXGroup"@ || role == "AXScrollArea"@ || role == "AXSplitGroup"@ || role == "AXTabGroup"@
}

pub fn is_layout_role(role: &str) -> (b: bool)
    ensures
        b == is_layout_role_spec(role@),
{
    let r = chars_of(role);
    chars_eq_str(&r, "AXGroup") || chars_eq_str(&r, "AXScrollArea") || chars_eq_str(&r, "AXSplitGroup")
        || chars_eq_str(&r, "AXTabGroup")
}

/// One step up the accessibility tree: the parent's role and how many of
/// its children are layout containers.
pub struct ParentInfo {
    pub role: String,
    pub layout_children: usize,
}

pub open spec fn stops_at(p: ParentInfo) -> bool {
    p.role@ == "AXWindow"@ || p.role@ == "AXApplication"@ || p.layout_children >= 2
}

/// The panel that holds the focused element, as a number of steps up from
/// it: the first ancestor whose parent is the window or the application, or
/// splits into two or more layout panels. `parents[i]` describes the parent
/// of the ancestor `i` steps up; a chain shorter than `MAX_CLIMB` ended at
/// the root. None when no such ancestor is within `MAX_CLIMB` steps.
pub open spec fn panel_anchor_spec(parents: Seq<ParentInfo>) -> Option<nat>
    decreases parents.len(),
{
    if parents.len() == 0 {
        None
    } else {
        match panel_anchor_spec(parents.drop_last()) {
            Some(i) => Some(i),
            None => if parents.len() <= MAX_CLIMB && stops_at(parents.last()) {
                Some((parents.len() - 1) as nat)
            } else {
                None
            },
        }
    }
}

pub fn panel_anchor(parents: &Vec<ParentInfo>) -> (r: Option<usize>)
    ensures
        match r {
            Some(i) => panel_anchor_spec(parents@) == Some(i as nat),
            None => panel_anchor_spec(parents@).is_none(),
        },
{
    let mut i: usize = 0;
    while i < parents.len() && i < MAX_CLIMB
        invariant
            i <= parents@.len(),
            i <= MAX_CLIMB,
            panel_anchor_spec(parents@.take(i as int)).is_none(),
        decreases parents@.len() - i,
    {
        let p = &parents[i];
        let r = chars_of(p.role.as_str());
        assert(parents@.take(i + 1).drop_last() =~= parents@.take(i as int));
        assert(parents@.take(i + 1).last() == parents@[i as int]);
        if chars_eq_str(&r, "AXWindow") || chars_eq_str(&r, "AXApplication") || p.layout_children >= 2 {
            proof {
                lemma_panel_anchor_prefix(parents@, i as int + 1);
            }
            return Some(i);
        }
        i += 1;
    }
    proof {
        if i == parents@.len() {
            assert(parents@.take(i as int) =~= parents@);
        } else {
            lemma_panel_anchor_beyond(parents@, i as int);
        }
    }
    None
}

proof fn lemma_panel_anchor_prefix(s: Seq<ParentInfo>, k: int)
    requires
        0 <= k <= s.len(),
        panel_anchor_spec(s.take(k)).is_some(),
    ensures
        panel_anchor_spec(s) == panel_anchor_spec(s.take(k)),
    decreases s.len() - k,
{
    if k < s.len() {
        assert(s.drop_last().take(k) =~= s.take(k));
        lemma_panel_anchor_prefix(s.drop_last(), k);
    } else {
        assert(s.take(k) =~= s);
    }
}

proof fn lemma_panel_anchor_beyond(s: Seq<ParentInfo>, k: int)
    requires
        k == MAX_CLIMB,
        k <= s.len(),
        panel_anchor_spec(s.take(k)).is_none(),
    ensures
        panel_anchor_spec(s).is_none(),
    decreases s.len() - k,
{
    if k < s.len() {
        assert(s.drop_last().take(k) =~= s.take(k));
        lemma_panel_anchor_beyond(s.drop_last(), k);
    } else {
        assert(s.take(k) =~= s);
    }
}

/// The panel anchor is the first stopping ancestor: the nearest one, within
/// `MAX_CLIMB` steps, whose parent is the window or the application or splits
/// into panels; there is none exactly when no ancestor in reach stops.
pub proof fn lemma_panel_anchor_first_stop(parents: Seq<ParentInfo>)
    ensures
        match panel_anchor_spec(parents) {
            Some(i) => {
                &&& i < parents.len()
                &&& i < MAX_CLIMB
                &&& stops_at(parents[i as int])
                &&& forall|j: int| 0 <= j < i ==> !stops_at(#[trigger] parents[j])
            },
            None => forall|j: int|
                0 <= j < parents.len() && j < MAX_CLIMB ==> !stops_at(#[trigger] parents[j]),
        },
    decreases parents.len(),
{
    if parents.len() > 0 {
        let pre = parents.drop_last();
        lemma_panel_anchor_first_stop(pre);
        assert forall|j: int| 0 <= j < pre.len() implies pre[j] == parents[j] by {}
    }
}

} // verus!
