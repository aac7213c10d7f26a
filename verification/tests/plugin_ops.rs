use dsh_desktop::plugin_ops::{
    begin_operation, collect_line, finish_operation, install_request, remove_request, update_request,
    validate_profile, validate_value, BUSY_MESSAGE, CANCELLED_MESSAGE,
};

#[test]
fn invalid_args_and_profiles_are_rejected() {
    assert!(install_request("web", "").is_err());
    assert!(install_request("web", "\0").is_err());
    let long_spec = "x".repeat(513);
    assert!(install_request("web", &long_spec).is_err());

    assert!(remove_request("", "pkg").is_err());
    assert!(remove_request("../web", "pkg").is_err());
    assert!(remove_request("web\\nested", "pkg").is_err());
    assert!(remove_request("web", "..").is_err());
}

#[test]
fn install_request_builds_the_dsh_plugin_command() {
    let args = install_request("web", "@scope/pkg@1.2.3").unwrap();
    assert_eq!(args, vec!["plugin", "--profile", "web", "add", "@scope/pkg@1.2.3"]);
    let args = remove_request("web", "@scope/pkg").unwrap();
    assert_eq!(args, vec!["plugin", "--profile", "web", "remove", "@scope/pkg"]);
    let args = update_request("web").unwrap();
    assert_eq!(args, vec!["plugin", "--profile", "web", "update"]);
}

#[test]
fn validation_messages() {
    assert_eq!(validate_value("spec", "  ").unwrap_err(), "spec 不能为空");
    assert_eq!(validate_value("spec", "a\0b").unwrap_err(), "spec 不能包含 NUL");
    assert_eq!(validate_value("spec", &"y".repeat(513)).unwrap_err(), "spec 长度不能超过 512");
    assert!(validate_value("spec", &"y".repeat(512)).is_ok());
    assert_eq!(validate_profile(".").unwrap_err(), "profile 名称无效");
    assert_eq!(validate_profile("").unwrap_err(), "profile 不能为空");
    assert_eq!(remove_request("web", ".").unwrap_err(), "name 无效");
}

#[test]
fn spec_is_checked_before_profile() {
    assert_eq!(install_request("../bad", "").unwrap_err(), "spec 不能为空");
}

#[test]
fn output_lines_are_trimmed_and_blank_ones_dropped() {
    let mut output = Vec::new();
    collect_line(&mut output, "stdout from fake dsh\r");
    collect_line(&mut output, "   ");
    collect_line(&mut output, "boom  ");
    assert_eq!(output, vec!["stdout from fake dsh", "boom"]);
}

#[test]
fn finished_operation_reports_exit_or_cancellation() {
    let result = finish_operation(Some((false, Some(7))), vec!["boom".into()]).unwrap();
    assert!(!result.ok);
    assert_eq!(result.exit_code, Some(7));
    assert_eq!(result.output, vec!["boom"]);
    assert_eq!(finish_operation(None, vec![]).unwrap_err(), CANCELLED_MESSAGE);
}

#[test]
fn only_one_operation_runs_at_a_time() {
    assert_eq!(begin_operation(false), Ok(()));
    assert_eq!(begin_operation(true), Err(BUSY_MESSAGE.to_string()));
    assert_eq!(BUSY_MESSAGE, "当前只有一个插件操作可运行");
}
