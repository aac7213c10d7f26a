use dsh_desktop::desktop_settings::{launch_window, LaunchWindow};
use dsh_desktop::desktop_settings::{effective_startup_mode, startup_mode, DesktopSection, StartupMode};
use dsh_desktop::json::JsonValue;
use dsh_desktop::mode::{desktop_mode_from_settings, DesktopMode};

#[test]
fn defaults_to_normal() {
    assert_eq!(startup_mode(&DesktopSection::default()), StartupMode::Normal);
}

#[test]
fn recognises_tray_and_minimized() {
    let tray = DesktopSection { autostart: Some(true), startup_mode: Some("tray".into()) };
    assert_eq!(startup_mode(&tray), StartupMode::Tray);
    let minimized = DesktopSection { autostart: None, startup_mode: Some("minimized".into()) };
    assert_eq!(startup_mode(&minimized), StartupMode::Minimized);
    let other = DesktopSection { autostart: None, startup_mode: Some("Tray".into()) };
    assert_eq!(startup_mode(&other), StartupMode::Normal);
}

#[test]
fn saved_startup_mode_wins() {
    let section = DesktopSection { autostart: None, startup_mode: Some("tray".into()) };
    assert_eq!(effective_startup_mode(Some(StartupMode::Minimized), Some(&section)), StartupMode::Minimized);
    assert_eq!(effective_startup_mode(None, Some(&section)), StartupMode::Tray);
    assert_eq!(effective_startup_mode(None, None), StartupMode::Normal);
}

fn settings(mode: JsonValue) -> JsonValue {
    JsonValue::Object(vec![(
        "dsh-desktop".to_string(),
        JsonValue::Object(vec![("mode".to_string(), mode)]),
    )])
}

#[test]
fn reads_advanced_mode_from_settings() {
    let doc = settings(JsonValue::Str("advanced".into()));
    assert_eq!(desktop_mode_from_settings(&doc), DesktopMode::Advanced);
    assert_eq!(DesktopMode::Advanced.as_str(), "advanced");
}

#[test]
fn falls_back_to_compatibility_for_missing_or_invalid() {
    assert_eq!(desktop_mode_from_settings(&JsonValue::Object(vec![])), DesktopMode::Compatibility);
    assert_eq!(
        desktop_mode_from_settings(&settings(JsonValue::Str("unknown".into()))),
        DesktopMode::Compatibility
    );
    assert_eq!(desktop_mode_from_settings(&settings(JsonValue::Bool(true))), DesktopMode::Compatibility);
    assert_eq!(desktop_mode_from_settings(&JsonValue::Null), DesktopMode::Compatibility);
    assert_eq!(DesktopMode::Compatibility.as_str(), "compatibility");
}

#[test]
fn autostart_follows_the_startup_mode() {
    assert_eq!(launch_window(false, StartupMode::Tray), LaunchWindow::Shown);
    assert_eq!(launch_window(true, StartupMode::Tray), LaunchWindow::InTray);
    assert_eq!(launch_window(true, StartupMode::Minimized), LaunchWindow::Minimized);
    assert_eq!(launch_window(true, StartupMode::Normal), LaunchWindow::Shown);
}
