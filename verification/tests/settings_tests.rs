use yoink::exclusions::is_app_excluded;
use yoink::settings::{default_hotkey, Settings, SettingsManager};

#[test]
fn defaults() {
    let s = Settings::defaults(false);
    assert_eq!(s.hotkey, "Ctrl+Shift+V");
    assert_eq!(Settings::defaults(true).hotkey, default_hotkey(true));
    assert_eq!(default_hotkey(true), "Command+Shift+V");
    assert_eq!(s.history_limit, 100);
    assert_eq!(s.theme, "system");
    assert_eq!(s.accent_color, "blue");
    assert_eq!(s.font_size, 14);
    assert!(s.show_timestamps && s.auto_paste);
    assert!(!s.launch_at_startup && !s.queue_mode_enabled && !s.sticky_mode);
    assert!(s.excluded_apps.is_empty());
}

#[test]
fn excluded_apps_are_listed_once_and_removed_entirely() {
    let mut m = SettingsManager::new(Settings::defaults(false));
    m.add_excluded_app("com.app.one".to_string());
    let s = m.add_excluded_app("com.app.one".to_string());
    assert_eq!(s.excluded_apps, vec!["com.app.one"]);
    m.add_excluded_app("com.app.two".to_string());
    let s = m.remove_excluded_app("com.app.one".to_string());
    assert_eq!(s.excluded_apps, vec!["com.app.two"]);
    assert_eq!(m.get().excluded_apps, vec!["com.app.two"]);
}

#[test]
fn field_setters_and_toggle() {
    let mut m = SettingsManager::new(Settings::defaults(false));
    assert_eq!(m.set_theme("dark".to_string()).theme, "dark");
    assert_eq!(m.set_accent_color("pink".to_string()).accent_color, "pink");
    assert_eq!(m.set_hotkey("Alt+V".to_string()).hotkey, "Alt+V");
    assert!(m.toggle_queue_mode().queue_mode_enabled);
    assert!(!m.toggle_queue_mode().queue_mode_enabled);
    let mut other = Settings::defaults(true);
    other.font_size = 20;
    m.update(other).unwrap();
    assert_eq!(m.get().font_size, 20);
}

#[test]
fn exclusion_matches_part_of_the_id_ignoring_case() {
    let mut m = SettingsManager::new(Settings::defaults(false));
    assert!(!is_app_excluded(&m, Some("com.1password.app".to_string())));
    m.add_excluded_app("1Password".to_string());
    assert!(is_app_excluded(&m, Some("com.1PASSWORD.app".to_string())));
    assert!(!is_app_excluded(&m, Some("com.apple.Safari".to_string())));
    assert!(!is_app_excluded(&m, None));
}
