use openflow::domain::HotkeyEvent;
use openflow::platform::{
    activate_pid, ax_error_label, ax_error_name, ensure_accessibility, ensure_listen_access,
    ensure_post_access, first_non_empty, focus_preview, is_layout_role, modifiers_released,
    normalize_and_truncate, panel_anchor, paste_text_via_clipboard, permission_snapshot,
    replace_last_chars, resolve_app_name, tap_decision, FocusSnapshot, ParentInfo, PasteStep,
    TapDecision, TriggerKey, FLAGS_CHANGED, FLAG_MASK_COMMAND, KEY_DOWN, KEY_UP,
    TAP_DISABLED_BY_TIMEOUT, TAP_DISABLED_BY_USER_INPUT, command_v_strokes, shift_left_strokes, KeyStroke,
};
use openflow::services::focus::MacOsFocusResolver;

#[test]
fn trigger_names_parse_case_insensitively() {
    assert_eq!(TriggerKey::from_name("f18"), Ok(TriggerKey::F18));
    assert_eq!(TriggerKey::from_name("F18"), Ok(TriggerKey::F18));
    assert_eq!(TriggerKey::from_name("f19"), Ok(TriggerKey::F19));
    assert_eq!(TriggerKey::from_name("F19"), Ok(TriggerKey::F19));
    assert_eq!(TriggerKey::from_name("right_command"), Ok(TriggerKey::RightCommand));
    assert_eq!(TriggerKey::from_name("Right-Command"), Ok(TriggerKey::RightCommand));
    assert_eq!(TriggerKey::from_name("RIGHTCMD"), Ok(TriggerKey::RightCommand));
}

#[test]
fn unknown_trigger_name_is_refused() {
    assert_eq!(
        TriggerKey::from_name("F20"),
        Err("unsupported hold key 'f20'. use 'f18' or 'right_command'".to_string())
    );
    assert_eq!(
        TriggerKey::from_name("Caps"),
        Err("unsupported hold key 'caps'. use 'f18' or 'right_command'".to_string())
    );
    assert_eq!(
        TriggerKey::from_name(""),
        Err("unsupported hold key ''. use 'f18' or 'right_command'".to_string())
    );
}

#[test]
fn trigger_keycodes() {
    assert_eq!(TriggerKey::F18.keycode(), 0x4F);
    assert_eq!(TriggerKey::RightCommand.keycode(), 0x36);
    assert_eq!(TriggerKey::F19.keycode(), 0x50);
    for k in [TriggerKey::F18, TriggerKey::F19, TriggerKey::RightCommand] {
        assert_eq!(TriggerKey::from_kind_code(k.kind_code()), k);
    }
}

#[test]
fn f18_reports_key_down_and_up() {
    let k = TriggerKey::F18;
    assert_eq!(k.matching_event(KEY_DOWN, 0x4F, 0), Some(HotkeyEvent::Pressed));
    assert_eq!(k.matching_event(KEY_UP, 0x4F, 0), Some(HotkeyEvent::Released));
    assert_eq!(k.matching_event(FLAGS_CHANGED, 0x4F, 0), None);
    assert_eq!(k.matching_event(KEY_DOWN, 0x00, 0), None);
}

#[test]
fn right_command_reports_flag_changes() {
    let k = TriggerKey::RightCommand;
    assert_eq!(k.matching_event(FLAGS_CHANGED, 0x36, FLAG_MASK_COMMAND), Some(HotkeyEvent::Pressed));
    assert_eq!(k.matching_event(FLAGS_CHANGED, 0x36, 0), Some(HotkeyEvent::Released));
    assert_eq!(k.matching_event(KEY_DOWN, 0x36, FLAG_MASK_COMMAND), None);
    assert_eq!(k.matching_event(FLAGS_CHANGED, 0x37, FLAG_MASK_COMMAND), None);
}

#[test]
fn tap_reenables_after_the_system_disables_it() {
    assert!(matches!(tap_decision(0, TAP_DISABLED_BY_TIMEOUT, 0x4F, 0, true), TapDecision::ReEnableTap));
    assert!(matches!(tap_decision(1, TAP_DISABLED_BY_USER_INPUT, 0, 0, false), TapDecision::ReEnableTap));
}

#[test]
fn tap_delivers_the_hold_key_and_passes_the_rest() {
    let f18 = TriggerKey::F18.kind_code();
    let cmd = TriggerKey::RightCommand.kind_code();
    assert!(matches!(
        tap_decision(f18, KEY_DOWN, 0x4F, 0, true),
        TapDecision::Deliver { event: HotkeyEvent::Pressed, swallow: true }
    ));
    assert!(matches!(
        tap_decision(cmd, FLAGS_CHANGED, 0x36, 0, false),
        TapDecision::Deliver { event: HotkeyEvent::Released, swallow: false }
    ));
    assert!(matches!(tap_decision(f18, KEY_DOWN, 0x00, 0, true), TapDecision::PassThrough));
}

#[test]
fn modifiers_mask() {
    assert!(modifiers_released(0));
    assert!(modifiers_released(0x0100));
    assert!(!modifiers_released(0x0002_0000));
    assert!(!modifiers_released(FLAG_MASK_COMMAND));
}

#[test]
fn permissions_errors_point_to_settings() {
    assert_eq!(ensure_accessibility(true), Ok(()));
    assert_eq!(
        ensure_accessibility(false),
        Err("Accessibility permission is required. Grant it in System Settings > Privacy & Security > Accessibility, then rerun the command.".to_string())
    );
    assert_eq!(
        ensure_listen_access(false),
        Err("Input Monitoring permission is required for global key capture. Grant it in System Settings > Privacy & Security > Input Monitoring, then rerun the command.".to_string())
    );
    assert_eq!(
        ensure_post_access(false),
        Err("macOS denied synthetic key events. Grant access in System Settings > Privacy & Security > Accessibility or the relevant automation prompt, then rerun the command.".to_string())
    );
    assert_eq!(ensure_listen_access(true), Ok(()));
    assert_eq!(ensure_post_access(true), Ok(()));
    let p = permission_snapshot(true, false, true);
    assert!(p.accessibility && !p.listen_events && p.post_events);
}

#[test]
fn activation_outcomes() {
    assert_eq!(activate_pid(123, true, true), Ok(()));
    assert_eq!(activate_pid(123, false, false), Err("no running application with pid 123".to_string()));
    assert_eq!(
        activate_pid(-5, true, false),
        Err("activateWithOptions: returned false for pid -5".to_string())
    );
}

fn steps(v: &[PasteStep]) -> Vec<String> {
    v.iter()
        .map(|s| match s {
            PasteStep::AwaitModifiersReleased(ms) => format!("await {ms}"),
            PasteStep::WriteClipboard(t) => format!("write {t}"),
            PasteStep::Sleep(ms) => format!("sleep {ms}"),
            PasteStep::PostPaste => "cmd-v".to_string(),
            PasteStep::SelectLeft(n) => format!("select {n}"),
            PasteStep::RestoreClipboard(t) => format!("restore {t}"),
        })
        .collect()
}

#[test]
fn clipboard_paste_restores_prior_text() {
    assert_eq!(
        steps(&paste_text_via_clipboard("hello", Some("old".into()))),
        vec!["await 500", "write hello", "sleep 60", "cmd-v", "sleep 120", "restore old"]
    );
    assert_eq!(
        steps(&paste_text_via_clipboard("hello", None)),
        vec!["await 500", "write hello", "sleep 60", "cmd-v"]
    );
}

#[test]
fn replacement_selects_then_pastes() {
    assert_eq!(
        steps(&replace_last_chars(5, "Hello.", None)),
        vec!["await 200", "select 5", "sleep 15", "await 500", "write Hello.", "sleep 60", "cmd-v"]
    );
    assert_eq!(
        steps(&replace_last_chars(0, "Hi", Some("x".into()))),
        vec!["await 500", "write Hi", "sleep 60", "cmd-v", "sleep 120", "restore x"]
    );
}

#[test]
fn ax_error_names_and_labels() {
    assert_eq!(ax_error_name(0), "success");
    assert_eq!(ax_error_name(-25212), "no_value");
    assert_eq!(ax_error_name(-25211), "api_disabled");
    assert_eq!(ax_error_name(7), "unknown");
    assert_eq!(ax_error_label(-25204), "cannot_complete (-25204)");
    assert_eq!(ax_error_label(0), "success (0)");
}

#[test]
fn first_non_empty_skips_blank_values() {
    let v = vec![None, Some("   ".to_string()), Some("Notes".to_string()), Some("Mail".to_string())];
    assert_eq!(first_non_empty(&v), Some("Notes".to_string()));
    assert_eq!(first_non_empty(&vec![None, Some("\t".to_string())]), None);
}

#[test]
fn app_name_falls_back_in_order() {
    assert_eq!(resolve_app_name(Some("Slack".into()), Some("Finder".into()), Some(7)), "Slack");
    assert_eq!(resolve_app_name(Some(" ".into()), Some("Finder".into()), Some(7)), "Finder");
    assert_eq!(resolve_app_name(None, None, Some(7)), "pid:7");
    assert_eq!(resolve_app_name(None, Some(String::new()), None), "Unknown");
}

#[test]
fn normalize_collapses_whitespace_and_marks() {
    assert_eq!(normalize_and_truncate("  a\u{200b}b \n\t c  ", 100), "ab c");
    assert_eq!(normalize_and_truncate("one two three", 7), "one two");
    assert_eq!(normalize_and_truncate("\u{feff}", 5), "");
}

#[test]
fn focus_preview_prefers_the_selection() {
    assert_eq!(
        focus_preview(Some("picked  text".into()), Some("range".into()), Some("value".into()), 50),
        Some("picked text".to_string())
    );
    assert_eq!(
        focus_preview(Some(" ".into()), None, Some("the value".into()), 3),
        Some("the".to_string())
    );
    assert_eq!(focus_preview(None, None, None, 10), None);
}

#[test]
fn layout_roles() {
    assert!(is_layout_role("AXGroup"));
    assert!(is_layout_role("AXSplitGroup"));
    assert!(!is_layout_role("AXWindow"));
}

fn parent(role: &str, layout_children: usize) -> ParentInfo {
    ParentInfo { role: role.into(), layout_children }
}

#[test]
fn panel_anchor_stops_below_the_window_or_a_split() {
    let chain = vec![parent("AXGroup", 1), parent("AXScrollArea", 1), parent("AXWindow", 1)];
    assert_eq!(panel_anchor(&chain), Some(2));
    let split = vec![parent("AXGroup", 0), parent("AXSplitGroup", 2), parent("AXWindow", 1)];
    assert_eq!(panel_anchor(&split), Some(1));
}

#[test]
fn snapshot_feeds_target_and_context() {
    let snap = FocusSnapshot {
        app_name: "Notes".into(),
        window_title: "Todo".into(),
        focused_role: "AXTextArea".into(),
        focused_value_preview: "buy milk".into(),
        visible_text: "Groceries".into(),
    };
    let t = snap.focus_target();
    assert_eq!(t.app_name, "Notes");
    assert_eq!(t.element_role, "AXTextArea");
    let c = snap.screen_context();
    assert_eq!(c.window_title, "Todo");
    assert_eq!(c.focused_value_preview, "buy milk");
    assert_eq!(c.visible_text, "Groceries");
}

#[test]
fn resolver_keeps_its_preview_limit() {
    assert_eq!(MacOsFocusResolver::new(2000).preview_limit(), 2000);
}

fn keys(v: &[KeyStroke]) -> Vec<(u16, bool, u64, u64)> {
    v.iter().map(|k| (k.keycode, k.key_down, k.flags, k.pause_ms)).collect()
}

#[test]
fn command_v_holds_command_around_v() {
    assert_eq!(
        keys(&command_v_strokes()),
        vec![(0x37, true, 0x0010_0000, 8), (0x09, true, 0x0010_0000, 8), (0x09, false, 0x0010_0000, 8), (0x37, false, 0, 8)]
    );
}

#[test]
fn shift_left_selects_backwards() {
    assert_eq!(
        keys(&shift_left_strokes(2)),
        vec![
            (0x38, true, 0x0002_0000, 8),
            (0x7B, true, 0x0002_0000, 0),
            (0x7B, false, 0x0002_0000, 0),
            (0x7B, true, 0x0002_0000, 0),
            (0x7B, false, 0x0002_0000, 0),
            (0x38, false, 0, 8),
        ]
    );
    assert_eq!(keys(&shift_left_strokes(0)), vec![(0x38, true, 0x0002_0000, 8), (0x38, false, 0, 8)]);
}

#[test]
fn f19_reports_key_down_and_up() {
    let k = TriggerKey::F19;
    assert_eq!(k.matching_event(KEY_DOWN, 0x50, 0), Some(HotkeyEvent::Pressed));
    assert_eq!(k.matching_event(KEY_UP, 0x50, 0), Some(HotkeyEvent::Released));
    assert_eq!(k.matching_event(KEY_DOWN, 0x4F, 0), None);
    assert!(matches!(
        tap_decision(k.kind_code(), KEY_UP, 0x50, 0, true),
        TapDecision::Deliver { event: HotkeyEvent::Released, swallow: true }
    ));
}
