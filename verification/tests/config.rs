use dsh_desktop::config::{
    default_enabled, default_remote_group, validate_config_path_setting, validate_config_paths,
    DshConfig, PathKind, RemotePluginPreset, RemotePluginSource,
};

#[test]
fn effective_prefers_stored_over_env() {
    let config = DshConfig {
        dsh_bin: Some("/stored/bin".into()),
        dsh_node: None,
        dsh_home: None,
        remote_plugins_path: Some("/stored/plugins.json".into()),
        shortcuts: vec![],
        remote_plugins: vec![],
    };
    let effective = config.effective(|k| match k {
        "DSH_BIN" => Some("/env/bin".into()),
        "DSH_DESKTOP_REMOTE_PLUGINS_PATH" => Some("/env/plugins.json".into()),
        _ => None,
    });
    assert_eq!(effective.dsh_bin.as_deref(), Some("/stored/bin"));
    assert_eq!(effective.remote_plugins_path.as_deref(), Some("/stored/plugins.json"));
}

#[test]
fn effective_falls_back_to_env() {
    let config = DshConfig::default();
    let effective = config.effective(|k| match k {
        "DSH_NODE" => Some("/env/node".into()),
        "DSH_DESKTOP_REMOTE_PLUGINS_PATH" => Some("/env/plugins.json".into()),
        _ => None,
    });
    assert_eq!(effective.dsh_node.as_deref(), Some("/env/node"));
    assert_eq!(effective.remote_plugins_path.as_deref(), Some("/env/plugins.json"));
}

#[test]
fn effective_keeps_shortcuts_and_presets() {
    let preset = RemotePluginPreset {
        id: "remote-1".into(),
        url: "https://example.com/plugin.tgz".into(),
        enabled: true,
        group: "tools".into(),
        source: RemotePluginSource::External,
    };
    let config = DshConfig {
        shortcuts: vec!["CmdOrCtrl+Shift+D".into()],
        remote_plugins: vec![preset.clone()],
        ..DshConfig::default()
    };
    let effective = config.effective(|_| None);
    assert_eq!(effective.shortcuts, vec!["CmdOrCtrl+Shift+D".to_string()]);
    assert_eq!(effective.remote_plugins, vec![preset]);
    assert_eq!(effective.dsh_home, None);
}

#[test]
fn preset_defaults() {
    assert!(default_enabled());
    assert_eq!(default_remote_group(), "default");
    assert_eq!(RemotePluginSource::default(), RemotePluginSource::Local);
}

#[test]
fn config_paths_require_absolute_and_existing_binaries() {
    let ok = DshConfig {
        dsh_bin: Some("/tmp/dsh-test/bin".into()),
        dsh_home: Some("/tmp/dsh-test".into()),
        ..DshConfig::default()
    };
    assert!(validate_config_paths(&ok, PathKind::File, PathKind::Missing, PathKind::Dir).is_ok());
    let relative = DshConfig { dsh_bin: Some("dsh".into()), ..DshConfig::default() };
    assert!(validate_config_paths(&relative, PathKind::File, PathKind::Missing, PathKind::Missing).is_err());
    let missing_home = DshConfig { dsh_home: Some("/tmp/dsh-test/missing".into()), ..DshConfig::default() };
    assert!(validate_config_paths(&missing_home, PathKind::Missing, PathKind::Missing, PathKind::Missing).is_ok());
}

#[test]
fn config_path_errors_name_the_setting() {
    assert_eq!(
        validate_config_path_setting("DSH_BIN", "  ", true, PathKind::Missing).unwrap_err(),
        "DSH_BIN 路径无效"
    );
    assert_eq!(
        validate_config_path_setting("DSH_BIN", "bin/dsh", true, PathKind::File).unwrap_err(),
        "DSH_BIN 必须是绝对路径"
    );
    assert_eq!(
        validate_config_path_setting("DSH_NODE", "/usr/bin/node", true, PathKind::Dir).unwrap_err(),
        "DSH_NODE 文件不存在: /usr/bin/node"
    );
    assert_eq!(
        validate_config_path_setting("DSH_HOME", "/tmp/file", false, PathKind::File).unwrap_err(),
        "DSH_HOME 不是目录: /tmp/file"
    );
    assert!(validate_config_path_setting("DSH_HOME", "/tmp/x\n", false, PathKind::Missing).is_err());
}

#[test]
fn first_failing_path_is_reported() {
    let config = DshConfig {
        dsh_bin: Some("relative".into()),
        dsh_node: Some("also-relative".into()),
        ..DshConfig::default()
    };
    assert_eq!(
        validate_config_paths(&config, PathKind::File, PathKind::File, PathKind::Missing).unwrap_err(),
        "DSH_BIN 必须是绝对路径"
    );
}
