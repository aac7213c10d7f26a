use dsh_desktop::search_path::{
    append_unique_path_entries, common_path_entries, expand_environment_vars,
    shell_path_outcome, shell_wait_step, ShellProbe, ShellWaitStep, parse_exported_path_value,
    parse_path_helper_path, parse_windows_registry_path_line, path_file_entries,
    shell_path_from_output, split_whitespace, trim_quotes, Platform,
};

#[test]
fn append_unique_path_entries_dedups_preserving_order() {
    let mut entries = vec!["/a".to_string()];
    append_unique_path_entries(
        &mut entries,
        vec!["/b".to_string(), "/a".to_string(), "/b".to_string()],
    );
    assert_eq!(entries, vec!["/a".to_string(), "/b".to_string()]);
}

#[test]
fn append_unique_compares_as_paths() {
    let mut entries = vec!["/a/".to_string()];
    append_unique_path_entries(&mut entries, vec!["/a".to_string(), "/c".to_string()]);
    assert_eq!(entries, vec!["/a/".to_string(), "/c".to_string()]);
}

#[test]
fn parse_path_helper_path_extracts_value() {
    assert_eq!(
        parse_path_helper_path(b"PATH=\"/a:/b\"; export PATH;\n"),
        Some("/a:/b".to_string())
    );
    assert_eq!(parse_path_helper_path(b"MANPATH=/x\n"), None);
}

#[test]
fn parse_exported_path_value_parses_common_forms() {
    assert_eq!(parse_exported_path_value("PATH=\"/a:/b\"\n"), Some("/a:/b".to_string()));
    assert_eq!(parse_exported_path_value("export PATH=/a:/b\n"), Some("/a:/b".to_string()));
    assert_eq!(parse_exported_path_value("NO_PATH=/x\n"), None);
}

#[test]
fn exported_path_skips_empty_values() {
    assert_eq!(
        parse_exported_path_value("PATH=\"\"\nexport PATH=/c\n"),
        Some("/c".to_string())
    );
}

#[test]
fn quotes_are_trimmed_at_both_ends() {
    assert_eq!(trim_quotes("\"\"a\"b\""), "a\"b");
    assert_eq!(trim_quotes("\"\""), "");
}

#[test]
fn common_dirs_by_platform() {
    assert_eq!(
        common_path_entries(Platform::MacOs),
        vec!["/opt/homebrew/bin", "/opt/homebrew/sbin", "/usr/local/bin"]
    );
    assert_eq!(common_path_entries(Platform::Linux).len(), 6);
    assert!(common_path_entries(Platform::Other).is_empty());
}

#[test]
fn parse_windows_registry_path_line_extracts_value() {
    assert_eq!(
        parse_windows_registry_path_line("    Path    REG_EXPAND_SZ    C:\\node;C:\\Windows"),
        Some("C:\\node;C:\\Windows".to_string())
    );
    assert_eq!(parse_windows_registry_path_line("HKEY_CURRENT_USER\\Environment"), None);
}

#[test]
fn registry_values_keep_inner_spaces() {
    assert_eq!(
        parse_windows_registry_path_line("Path REG_SZ \"C:\\Program Files\\node\"  "),
        Some("C:\\Program Files\\node".to_string())
    );
    assert_eq!(parse_windows_registry_path_line("Path REG_SZ"), None);
}

#[test]
fn whitespace_splitting() {
    assert_eq!(split_whitespace("  a \t bb\nc  "), vec!["a", "bb", "c"]);
    assert!(split_whitespace("   ").is_empty());
}

#[test]
fn path_files_and_shell_output() {
    assert_eq!(
        path_file_entries("/usr/local/bin\n# comment\n\n  /opt/bin  \n"),
        vec!["/usr/local/bin", "/opt/bin"]
    );
    assert_eq!(shell_path_from_output("motd\n/a:/b\n  \n"), Some("/a:/b".to_string()));
    assert_eq!(shell_path_from_output("\n \n"), None);
}

fn sample_env(name: &str) -> Option<String> {
    match name {
        "A" => Some("x".to_string()),
        "HOME" => Some("C:\\Users\\me".to_string()),
        _ => None,
    }
}

#[test]
fn environment_references_are_expanded() {
    assert_eq!(expand_environment_vars("%A%;%B%;50%", sample_env), "x;%B%;50%");
    assert_eq!(
        expand_environment_vars("%HOME%\\bin;plain", sample_env),
        "C:\\Users\\me\\bin;plain"
    );
    assert_eq!(expand_environment_vars("no refs", sample_env), "no refs");
    assert_eq!(expand_environment_vars("%", sample_env), "%");
    assert_eq!(expand_environment_vars("%%", sample_env), "%%");
}

#[test]
fn shell_wait_gives_up_after_the_timeout() {
    assert_eq!(shell_wait_step(ShellProbe::Exited(true), 5), ShellWaitStep::Finish(Some(true)));
    assert_eq!(shell_wait_step(ShellProbe::Exited(false), 5000), ShellWaitStep::Finish(Some(false)));
    assert_eq!(shell_wait_step(ShellProbe::Failed, 0), ShellWaitStep::Finish(None));
    assert_eq!(shell_wait_step(ShellProbe::Running, 1499), ShellWaitStep::Sleep(20));
    assert_eq!(shell_wait_step(ShellProbe::Running, 1500), ShellWaitStep::KillAndFinish);
    assert_eq!(shell_path_outcome(Some(true), Some("/bin".into())), Some("/bin".to_string()));
    assert_eq!(shell_path_outcome(Some(false), Some("/bin".into())), None);
    assert_eq!(shell_path_outcome(None, Some("/bin".into())), None);
}
