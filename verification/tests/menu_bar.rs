use openflow::tray::{status_display, IconColor, TrayDisplay, TrayState, TrayStatus};

fn shown(v: &[TrayDisplay]) -> Vec<(String, IconColor)> {
    v.iter().map(|d| (d.tooltip.clone(), d.icon)).collect()
}

#[test]
fn each_status_has_its_tooltip_and_colour() {
    let cases = [
        (TrayStatus::Idle, "OpenFlow – idle", IconColor::Idle),
        (TrayStatus::Recording, "OpenFlow – recording…", IconColor::Recording),
        (TrayStatus::Processing, "OpenFlow – processing…", IconColor::Processing),
        (TrayStatus::Success, "OpenFlow – pasted ✓", IconColor::Success),
        (TrayStatus::Error("boom".into()), "OpenFlow – error: boom", IconColor::Error),
    ];
    for (status, tooltip, icon) in cases {
        let d = status_display(&status);
        assert_eq!(d.tooltip, tooltip);
        assert_eq!(d.icon, icon);
    }
}

#[test]
fn tints() {
    assert_eq!(IconColor::Idle.tint(), (130, 130, 130));
    assert_eq!(IconColor::Recording.tint(), (220, 40, 40));
    assert_eq!(IconColor::Processing.tint(), (200, 160, 0));
    assert_eq!(IconColor::Success.tint(), (40, 180, 40));
    assert_eq!(IconColor::Error.tint(), (200, 0, 0));
}

#[test]
fn starts_idle() {
    let d = TrayState::initial_display();
    assert_eq!(d.tooltip, "OpenFlow – idle");
    assert_eq!(d.icon, IconColor::Idle);
}

#[test]
fn success_flash_reverts_after_its_time() {
    let mut s = TrayState::new();
    let t = s.tick(1_000, false, vec![TrayStatus::Success]);
    assert!(!t.exit);
    assert_eq!(shown(&t.updates), vec![("OpenFlow – pasted ✓".to_string(), IconColor::Success)]);
    let t = s.tick(2_199, false, vec![]);
    assert!(t.updates.is_empty());
    let t = s.tick(2_200, false, vec![]);
    assert_eq!(shown(&t.updates), vec![("OpenFlow – idle".to_string(), IconColor::Idle)]);
    let t = s.tick(5_000, false, vec![]);
    assert!(t.updates.is_empty());
}

#[test]
fn the_last_status_of_a_wakeup_wins() {
    let mut s = TrayState::new();
    let t = s.tick(0, false, vec![TrayStatus::Recording, TrayStatus::Processing]);
    assert_eq!(shown(&t.updates), vec![("OpenFlow – processing…".to_string(), IconColor::Processing)]);
}

#[test]
fn a_new_status_cancels_the_flash() {
    let mut s = TrayState::new();
    s.tick(0, false, vec![TrayStatus::Success]);
    s.tick(100, false, vec![TrayStatus::Recording]);
    let t = s.tick(5_000, false, vec![]);
    assert!(t.updates.is_empty());
}

#[test]
fn quit_ends_the_loop_without_applying_statuses() {
    let mut s = TrayState::new();
    let t = s.tick(0, true, vec![TrayStatus::Recording]);
    assert!(t.exit);
    assert!(t.updates.is_empty());
}

#[test]
fn expired_flash_and_new_status_in_one_wakeup() {
    let mut s = TrayState::new();
    s.tick(0, false, vec![TrayStatus::Success]);
    let t = s.tick(1_300, false, vec![TrayStatus::Error("x".into())]);
    assert_eq!(
        shown(&t.updates),
        vec![
            ("OpenFlow – idle".to_string(), IconColor::Idle),
            ("OpenFlow – error: x".to_string(), IconColor::Error),
        ]
    );
}
