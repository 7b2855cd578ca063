use yoink::hotkey::{on_hotkey_pressed, validate_hotkey};
use yoink::hotkey_poll::{
    finish_release, KeyReadings, ModifierPoller, PollOutcome, ReleaseAction, ShortcutChange,
};
use yoink::input_monitor::{HeldModifiers, InputMonitor, SwitchEvent, SwitchKey, SwitchSignal};
use yoink::paste_helper::PreviousAppState;
use yoink::qrcode::generate_qr_code;
use yoink::tray::{tray_action, TrayAction};
use yoink::window::{HotkeyModeState, SelectedItemState};

#[test]
fn previous_app_skips_own_window() {
    let mut s = PreviousAppState::new();
    assert_eq!(s.get_previous_app(), None);
    s.save_previous_app(Some("com.apple.Notes".to_string()));
    s.save_previous_app(Some("com.yoink.app".to_string()));
    s.save_previous_app(None);
    assert_eq!(s.get_previous_app(), Some("com.apple.Notes".to_string()));
    s.clear();
    assert_eq!(s.get_previous_app(), None);
}

#[test]
fn quick_switch_cycles_and_confirms() {
    let mut m = InputMonitor::new();
    assert!(!m.is_active());
    assert!(m.start_quick_switch());
    assert!(!m.start_quick_switch());
    let mut held = HeldModifiers::at_start();
    assert_eq!(m.handle_event(&mut held, SwitchEvent::Press(SwitchKey::V)), SwitchSignal::Cycle);
    assert_eq!(m.handle_event(&mut held, SwitchEvent::Other), SwitchSignal::Nothing);
    assert_eq!(
        m.handle_event(&mut held, SwitchEvent::Release(SwitchKey::Shift)),
        SwitchSignal::Confirm
    );
    assert!(!m.is_active());
    assert_eq!(m.handle_event(&mut held, SwitchEvent::Press(SwitchKey::V)), SwitchSignal::Nothing);
    m.stop();
    assert_eq!(
        m.handle_event(&mut held, SwitchEvent::Press(SwitchKey::Shift)),
        SwitchSignal::Nothing
    );
    assert!(!held.shift_held);
}

fn keys(escape: bool, v: bool, command: bool, shift: bool) -> KeyReadings {
    KeyReadings { escape, v, command, shift }
}

#[test]
fn modifier_poll_decisions() {
    let mut p = ModifierPoller::new();
    let d = p.step(false, keys(false, false, false, false));
    assert_eq!(d.shortcut, ShortcutChange::Keep);
    assert_eq!(d.outcome, PollOutcome::Idle);
    let d = p.step(true, keys(false, true, true, true));
    assert_eq!(d.shortcut, ShortcutChange::Unregister);
    assert!(!d.emit_cycle);
    let d = p.step(true, keys(false, false, true, true));
    assert!(!d.emit_cycle);
    let d = p.step(true, keys(false, true, true, true));
    assert!(d.emit_cycle);
    assert_eq!(d.outcome, PollOutcome::Idle);
    let d = p.step(true, keys(false, false, false, false));
    assert_eq!(d.outcome, PollOutcome::CheckRelease);
    let d = p.step(true, keys(true, false, true, false));
    assert_eq!(d.outcome, PollOutcome::Cancel);
    let d = p.step(false, keys(false, false, false, false));
    assert_eq!(d.shortcut, ShortcutChange::Register);
}

#[test]
fn release_pastes_the_selection() {
    let mut mode = HotkeyModeState::new();
    let mut sel = SelectedItemState::new();
    mode.enter();
    sel.set(Some("item-1".to_string()));
    match finish_release(&mut mode, &mut sel, false) {
        ReleaseAction::Paste(id) => assert_eq!(id, "item-1"),
        other => panic!("unexpected {:?}", other),
    }
    assert!(!mode.is_active());
    assert!(sel.take().is_none());
    assert!(matches!(finish_release(&mut mode, &mut sel, false), ReleaseAction::Nothing));
    mode.enter();
    assert!(matches!(finish_release(&mut mode, &mut sel, false), ReleaseAction::Hide));
    mode.enter();
    sel.set(Some("x".to_string()));
    assert!(matches!(finish_release(&mut mode, &mut sel, true), ReleaseAction::Cancel));
    assert!(sel.take().is_none());
}

#[test]
fn hotkey_validation() {
    assert_eq!(validate_hotkey("Ctrl+Shift+V".to_string()), Ok(true));
    assert_eq!(validate_hotkey("Command+Shift+V".to_string()), Ok(true));
    assert_eq!(validate_hotkey("Ctrl+".to_string()), Ok(false));
    assert_eq!(validate_hotkey("Ctrl+V+Shift".to_string()), Ok(false));
}

#[test]
fn qr_code_is_svg() {
    let svg = generate_qr_code("hello".to_string()).unwrap();
    assert!(svg.starts_with("<?xml version=\"1.0\" standalone=\"yes\"?><svg"));
    assert!(svg.ends_with("\"/></svg>"));
    let too_long = "x".repeat(5000);
    assert_eq!(generate_qr_code(too_long), Err("data too long".to_string()));
}

#[test]
fn tray_entries() {
    assert_eq!(tray_action("open"), TrayAction::Open);
    assert_eq!(tray_action("settings"), TrayAction::Settings);
    assert_eq!(tray_action("upgrade"), TrayAction::Upgrade);
    assert_eq!(tray_action("quit"), TrayAction::Quit);
    assert_eq!(tray_action("other"), TrayAction::Ignore);
}

#[test]
fn hotkey_press_enters_mode_only_when_opening() {
    let mut mode = HotkeyModeState::new();
    assert!(!on_hotkey_pressed(true, &mut mode));
    assert!(!mode.is_active());
    assert!(on_hotkey_pressed(false, &mut mode));
    assert!(mode.is_active());
    assert!(!on_hotkey_pressed(true, &mut mode));
    assert!(mode.is_active());
}
