use dsh_desktop::process::{
    classify_drop, cleanup_step, is_managed_dsh_cmd, parse_dsh_web_url, CleanupAction, MANAGED_ENV,
};

fn strings(v: &[&str]) -> Vec<String> {
    v.iter().map(|s| s.to_string()).collect()
}

#[test]
fn parses_url_line() {
    assert_eq!(
        parse_dsh_web_url("dsh web: http://127.0.0.1:49321"),
        Some("http://127.0.0.1:49321".into())
    );
    assert_eq!(parse_dsh_web_url("random log line"), None);
}

#[test]
fn url_line_port_must_fit_and_exist() {
    assert_eq!(
        parse_dsh_web_url("[out] dsh web: http://127.0.0.1:0080/ ready"),
        Some("http://127.0.0.1:80".into())
    );
    assert_eq!(parse_dsh_web_url("dsh web: http://127.0.0.1:70000"), None);
    assert_eq!(parse_dsh_web_url("dsh web: http://127.0.0.1:"), None);
}

#[test]
fn identifies_managed_dsh_web_by_overlay() {
    let cmd = strings(&[
        "/usr/local/bin/node",
        "/opt/homebrew/bin/dsh",
        "web",
        "--patch",
        "/tmp/dsh-desktop/embedded-plugins.patch.yml",
    ]);
    assert!(is_managed_dsh_cmd(&cmd, &[], "/tmp/dsh-desktop"));
    assert!(!is_managed_dsh_cmd(&cmd[..3], &[], "/tmp/dsh-desktop"));
    assert!(!is_managed_dsh_cmd(&cmd, &[], "/other/dsh-desktop"));
}

#[test]
fn identifies_managed_dsh_web_by_env() {
    let cmd = strings(&["node", "dsh", "web"]);
    let environ = strings(&[MANAGED_ENV]);
    assert!(is_managed_dsh_cmd(&cmd, &environ, "/tmp"));
    assert!(!is_managed_dsh_cmd(&cmd, &[], "/tmp"));
}

#[test]
fn classifies_drop_kind() {
    assert_eq!(classify_drop(&[true]), "directory");
    assert_eq!(classify_drop(&[]), "file");
    assert_eq!(classify_drop(&[false, false]), "file");
    assert_eq!(classify_drop(&[true, false]), "mixed");
}

#[test]
fn cleanup_terminates_then_kills() {
    assert_eq!(cleanup_step(0, false, false), CleanupAction::Done);
    assert_eq!(cleanup_step(2, false, false), CleanupAction::Terminate);
    assert_eq!(cleanup_step(2, false, true), CleanupAction::Wait);
    assert_eq!(cleanup_step(1, true, true), CleanupAction::ForceKill);
}
