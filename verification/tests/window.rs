use dsh_desktop::notifications::{focus_action, open_update_action};
use dsh_desktop::window::{parse_window_color, shortcut_error, window_action_plan, WindowStep};

#[test]
fn window_actions() {
    assert_eq!(window_action_plan("minimize", false, true, false), Ok(WindowStep::Minimize));
    assert_eq!(window_action_plan("maximize", true, true, false), Ok(WindowStep::Unmaximize));
    assert_eq!(window_action_plan("maximize", false, true, false), Ok(WindowStep::Maximize));
    assert_eq!(window_action_plan("close", false, true, false), Ok(WindowStep::Close));
    assert_eq!(window_action_plan("toggle-visible", false, true, false), Ok(WindowStep::Hide));
    assert_eq!(
        window_action_plan("toggle-visible", false, false, true),
        Ok(WindowStep::Show { unminimize: true })
    );
    assert_eq!(window_action_plan("spin", false, false, false), Err("未知窗口动作: spin".to_string()));
}

#[test]
fn window_colors() {
    assert_eq!(parse_window_color("#151517"), Some((0x15, 0x15, 0x17, 255)));
    assert_eq!(parse_window_color("#fff"), None);
    assert_eq!(parse_window_color("#zz0000"), None);
    assert_eq!(parse_window_color("##ABCDEF"), Some((0xab, 0xcd, 0xef, 255)));
}

#[test]
fn shortcut_errors() {
    assert_eq!(
        shortcut_error("CmdOrCtrl+D", "HotKey already registered"),
        "快捷键 CmdOrCtrl+D 已被其他应用占用"
    );
    assert_eq!(shortcut_error("X", "bad key"), "注册快捷键 X 失败: bad key");
}

#[test]
fn ready_notification_focuses_the_window() {
    let action = focus_action("http://127.0.0.1:5");
    assert_eq!(action.kind, "focus");
    assert_eq!(action.url.as_deref(), Some("http://127.0.0.1:5"));
    assert!(action.session_id.is_none() && action.path.is_none());
}

#[test]
fn update_notification_opens_the_installer() {
    let action = open_update_action("/cache/updates/dsh.dmg");
    assert_eq!(action.kind, "open_update");
    assert_eq!(action.path.as_deref(), Some("/cache/updates/dsh.dmg"));
    assert!(action.url.is_none());
}
