use dsh_desktop::lan_proxy::{
    extract_urls, latest_error, resolve_target, validate, LanProxySettings, DEFAULT_TARGET,
};

#[test]
fn defaults_are_valid() {
    let settings = LanProxySettings::default();
    assert_eq!(settings.bind, "0.0.0.0");
    assert_eq!(settings.port, 8080);
    assert!(settings.target.is_none());
}

#[test]
fn invalid_target_is_rejected() {
    let settings = LanProxySettings {
        target: Some("http://127.0.0.1:8080".into()),
        ..LanProxySettings::default()
    };
    assert!(validate(&settings).is_err());
}

#[test]
fn resolve_target_uses_current_url_first() {
    let settings = LanProxySettings::default();
    let target = resolve_target(&settings, Some("http://127.0.0.1:53210")).unwrap();
    assert_eq!(target, "127.0.0.1:53210");
}

#[test]
fn resolve_target_falls_back_to_default() {
    let settings = LanProxySettings::default();
    let target = resolve_target(&settings, None).unwrap();
    assert_eq!(target, DEFAULT_TARGET);
}

#[test]
fn extract_urls_parses_script_output() {
    let lines = vec![
        "[lan-proxy] 已启动".into(),
        "  监听:      0.0.0.0:8080".into(),
        "  局域网访问: http://192.168.1.8:8080".into(),
    ];
    assert_eq!(extract_urls(&lines), vec!["http://192.168.1.8:8080"]);
}

#[test]
fn defaults_pass_validation() {
    assert!(validate(&LanProxySettings::default()).is_ok());
}

#[test]
fn latest_error_without_errors_is_none() {
    let lines: Vec<String> = vec!["[lan-proxy] 已启动".into()];
    assert_eq!(latest_error(&lines), None);
}

#[test]
fn latest_error_picks_the_newest_failure() {
    let lines: Vec<String> = vec![
        "Error: first".into(),
        "ok".into(),
        "[lan-proxy] 启动失败: port busy".into(),
        "listening".into(),
    ];
    assert_eq!(latest_error(&lines), Some("[lan-proxy] 启动失败: port busy".to_string()));
}

#[test]
fn zero_port_is_rejected() {
    let settings = LanProxySettings { port: 0, ..LanProxySettings::default() };
    assert_eq!(validate(&settings).unwrap_err(), "监听端口必须大于 0");
}

#[test]
fn blank_bind_is_rejected() {
    let settings = LanProxySettings { bind: "  ".into(), ..LanProxySettings::default() };
    assert_eq!(validate(&settings).unwrap_err(), "监听地址不能为空");
}
