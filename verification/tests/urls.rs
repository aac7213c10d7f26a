use dsh_desktop::urls::{
    check_open_external_target, is_dsh_web_url, is_external_url, is_managed_dsh_url,
    is_shell_url, validate_open_external_target, UrlParts,
};

/// The parts of a URL as the shell's window reads them from the parsed URL.
fn parse_url(text: &str) -> Option<UrlParts> {
    let u = url::Url::parse(text).ok()?;
    let origin = match u.origin() {
        url::Origin::Tuple(scheme, host, port) => Some((scheme, host.to_string(), port)),
        url::Origin::Opaque(_) => None,
    };
    Some(UrlParts { scheme: u.scheme().to_string(), host: u.host_str().map(str::to_string), origin })
}

#[test]
fn only_accepts_loopback_hosts() {
    assert!(is_dsh_web_url(&parse_url("http://127.0.0.1:49321").unwrap()));
    assert!(is_dsh_web_url(&parse_url("http://localhost:49321").unwrap()));
    assert!(is_dsh_web_url(&parse_url("http://[::1]:49321").unwrap()));
    assert!(!is_dsh_web_url(&parse_url("https://example.com").unwrap()));
}

#[test]
fn navigation_policy_allows_shell_urls() {
    for url in ["tauri://localhost", "http://localhost:5173", "http://127.0.0.1:5173"] {
        let parsed = parse_url(url).unwrap();
        assert!(is_shell_url(&parsed), "应允许 {url}");
    }
}

#[test]
fn navigation_policy_rejects_unmanaged_loopback_urls() {
    for url in [
        "https://example.com",
        "http://0.0.0.0:8080",
        "http://127.0.0.1:49321",
        "http://localhost:5174",
        "file:///tmp/index.html",
        "about:blank",
    ] {
        let parsed = parse_url(url).unwrap();
        assert!(!is_shell_url(&parsed), "本地页面应拒绝 {url}");
    }
    assert!(is_external_url(&parse_url("https://example.com").unwrap()));
    assert!(!is_external_url(&parse_url("file:///tmp/index.html").unwrap()));
}

#[test]
fn managed_dsh_url_matches_exact_origin() {
    let managed = parse_url("http://127.0.0.1:49321").unwrap();
    assert!(is_managed_dsh_url(&parse_url("http://127.0.0.1:49321/settings").unwrap(), Some(&managed)));
    assert!(!is_managed_dsh_url(&parse_url("http://127.0.0.1:49322").unwrap(), Some(&managed)));
    assert!(!is_managed_dsh_url(&parse_url("http://localhost:49321").unwrap(), Some(&managed)));
    assert!(!is_managed_dsh_url(&parse_url("http://127.0.0.1:49321").unwrap(), None));
}

#[test]
fn open_external_validates_targets() {
    assert!(validate_open_external_target("https://example.com", false).is_ok());
    assert!(validate_open_external_target("http://127.0.0.1:8080", false).is_ok());
    assert!(validate_open_external_target("file:///tmp/a", true).is_err());
    assert!(validate_open_external_target("/tmp/does-not-exist", false).is_err());
    assert!(validate_open_external_target("/tmp/exists", true).is_ok());
    assert!(validate_open_external_target("relative/path", true).is_err());
    assert_eq!(validate_open_external_target(" ", true).unwrap_err(), "打开目标无效");
}

#[test]
fn open_target_checks_follow_the_platform_answer() {
    assert!(check_open_external_target("/data/report.txt", true, true).is_ok());
    // a drive path reads as a URL with scheme `c`, which is refused
    assert!(check_open_external_target("C:\\data", true, true).is_err());
    assert!(check_open_external_target("/tmp/x", false, true).is_err());
    assert_eq!(
        check_open_external_target("ftp://example.com/a", true, true).unwrap_err(),
        "不允许打开非 HTTP(S) URL: ftp://example.com/a"
    );
}
