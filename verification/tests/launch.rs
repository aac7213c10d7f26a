use dsh_desktop::launch::{installer_extension, release_asset, InstallerPlatform, ReleaseAsset};
use dsh_desktop::json::JsonValue;
use dsh_desktop::launch::release_tag;
use dsh_desktop::launch::{
    asset_file_name_verdict, dsh_install_request, dsh_update_request, npm_install_result,
    npm_update_result, safe_asset_name,
};
use dsh_desktop::launch::{is_newer, update_available, update_target, SemVersion};
use dsh_desktop::launch::{
    dsh_web_args, exit_summary, generate_host_token, health_status_ok, hex_encode,
    parse_port, parse_release_tag,
};
use dsh_desktop::process::parse_dsh_web_url;

#[test]
fn parse_port_handles_health_url_path() {
    assert_eq!(parse_port("http://127.0.0.1:62359"), 62359);
    assert_eq!(parse_port("http://127.0.0.1:62359/dsh-desktop/health"), 62359);
    assert_eq!(parse_port("http://[::1]:62359/dsh-desktop/health"), 62359);
}

#[test]
fn parse_port_falls_back_to_default() {
    assert_eq!(parse_port("http://localhost"), 3080);
    assert_eq!(parse_port("http://127.0.0.1:99999"), 3080);
    assert_eq!(parse_port("127.0.0.1:8080"), 8080);
}

#[test]
fn announced_port_is_the_checked_port() {
    let url = parse_dsh_web_url("dsh web: http://127.0.0.1:49321").unwrap();
    assert_eq!(parse_port(&url), 49321);
}

#[test]
fn dsh_web_args_omits_patch_without_overlay() {
    let args = dsh_web_args("workbench", None);

    assert_eq!(args.first().map(String::as_str), Some("--profile"));
    assert_eq!(args.get(1).map(String::as_str), Some("workbench"));
    assert!(!args.iter().any(|arg| arg == "--patch"));
    assert!(!args.iter().any(|arg| arg == "web"));
    assert_eq!(
        args,
        vec![
            "--profile".to_string(),
            "workbench".to_string(),
            "--host".to_string(),
            "127.0.0.1".to_string(),
            "--port".to_string(),
            "0".to_string(),
        ]
    );
}

#[test]
fn dsh_web_args_uses_active_profile_with_overlay() {
    let overlay = "/tmp/dsh-overlay.yml".to_string();
    let args = dsh_web_args("workbench", Some(&overlay));
    assert_eq!(
        args,
        vec![
            "--profile".to_string(),
            "workbench".to_string(),
            "--patch".to_string(),
            overlay.clone(),
            "--host".to_string(),
            "127.0.0.1".to_string(),
            "--port".to_string(),
            "0".to_string(),
        ]
    );
}

#[test]
fn health_line_needs_status_200() {
    assert!(health_status_ok("HTTP/1.1 200 OK\r\n"));
    assert!(health_status_ok("HTTP/1.0 200"));
    assert!(!health_status_ok("HTTP/1.1 404 Not Found"));
    assert!(!health_status_ok(""));
}

#[test]
fn exit_is_described_by_signal_then_code() {
    assert_eq!(exit_summary(Some(9), Some(1)), "signal 9");
    assert_eq!(exit_summary(None, Some(-3)), "exit code -3");
    assert_eq!(exit_summary(None, None), "unknown");
}

#[test]
fn host_token_is_48_hex_digits() {
    let token = generate_host_token().expect("system random source");
    assert_eq!(token.len(), 48);
    assert!(token.chars().all(|c| c.is_ascii_hexdigit() && !c.is_ascii_uppercase()));
    assert_ne!(generate_host_token().unwrap(), token);
    assert_eq!(hex_encode(&[0, 15, 255]), "000fff");
}

fn version(major: u64, minor: u64, patch: u64, pre: &str) -> SemVersion {
    SemVersion { major, minor, patch, pre: pre.to_string(), build: String::new() }
}

#[test]
fn release_tags_lose_their_v() {
    let v = parse_release_tag("v0.1.0").unwrap();
    assert_eq!(v, version(0, 1, 0, ""));
    assert_eq!(parse_release_tag("vv1.2.3").unwrap(), version(1, 2, 3, ""));
    let full = parse_release_tag("v1.2.3-rc.1+build.5").unwrap();
    assert_eq!((full.pre.as_str(), full.build.as_str()), ("rc.1", "build.5"));
    let err = parse_release_tag("v1.0").unwrap_err();
    assert!(err.starts_with("解析远程版本 v1.0 失败: "));
}

#[test]
fn release_document_needs_a_tag() {
    let doc = JsonValue::Object(vec![("tag_name".to_string(), JsonValue::Str("v0.2.0".into()))]);
    assert_eq!(release_tag(&doc), Ok("v0.2.0".to_string()));
    assert_eq!(
        release_tag(&JsonValue::Object(vec![])),
        Err("检查更新失败: 响应缺少 tag_name".to_string())
    );
}

#[test]
fn updates_are_newer_releases_only() {
    let current = version(0, 1, 0, "");
    assert_eq!(update_available("v0.2.0", &current), Ok(Some("v0.2.0".to_string())));
    assert_eq!(update_available("v0.1.0", &current), Ok(None));
    assert_eq!(update_available("v0.1.0-beta.1", &current), Ok(None));
    assert_eq!(update_available("v0.0.9", &current), Ok(None));
    assert!(update_available("latest", &current).is_err());
    let beta = version(0, 1, 0, "beta.1");
    assert_eq!(update_available("v0.1.0", &beta), Ok(Some("v0.1.0".to_string())));
    assert_eq!(update_available("v0.1.0-beta.2", &beta), Ok(Some("v0.1.0-beta.2".to_string())));
}

#[test]
fn version_order_follows_semver() {
    assert!(is_newer(&version(1, 0, 0, ""), &version(0, 9, 9, "")));
    assert!(is_newer(&version(1, 0, 0, ""), &version(1, 0, 0, "rc.1")));
    assert!(is_newer(&version(1, 0, 0, "beta.11"), &version(1, 0, 0, "beta.2")));
    assert!(is_newer(&version(1, 0, 0, "alpha.beta"), &version(1, 0, 0, "alpha.1")));
    assert!(!is_newer(&version(1, 0, 0, "rc.1"), &version(1, 0, 0, "rc.1")));
    assert!(!is_newer(&version(0, 9, 0, ""), &version(0, 10, 0, "")));
}

#[test]
fn installing_needs_a_newer_release() {
    let current = version(0, 1, 0, "");
    assert_eq!(update_target("v0.2.0", &current), Ok("v0.2.0".to_string()));
    assert_eq!(update_target("v0.1.0", &current), Err("没有可用更新".to_string()));
    assert!(update_target("v0.2", &current).unwrap_err().starts_with("解析远程版本 v0.2 失败: "));
}

fn asset(name: &str, url: Option<&str>) -> JsonValue {
    let mut entries = vec![("name".to_string(), JsonValue::Str(name.into()))];
    if let Some(u) = url {
        entries.push(("browser_download_url".to_string(), JsonValue::Str(u.into())));
    }
    JsonValue::Object(entries)
}

#[test]
fn installer_asset_is_the_first_with_the_platform_ending() {
    assert_eq!(installer_extension(InstallerPlatform::MacOs), ".dmg");
    assert_eq!(installer_extension(InstallerPlatform::Windows), ".exe");
    assert_eq!(installer_extension(InstallerPlatform::Other), ".AppImage");
    let doc = JsonValue::Object(vec![(
        "assets".to_string(),
        JsonValue::Array(vec![
            asset("dsh.exe", Some("https://x/dsh.exe")),
            asset("dsh-1.dmg", Some("https://x/dsh-1.dmg")),
            asset("dsh-2.dmg", Some("https://x/dsh-2.dmg")),
        ]),
    )]);
    assert_eq!(
        release_asset(&doc, ".dmg"),
        Ok(ReleaseAsset { name: "dsh-1.dmg".into(), url: "https://x/dsh-1.dmg".into() })
    );
    assert_eq!(release_asset(&doc, ".AppImage"), Err("发布中未找到 .AppImage 安装包".to_string()));
    let no_url = JsonValue::Object(vec![("assets".to_string(), JsonValue::Array(vec![asset("a.exe", None)]))]);
    assert_eq!(release_asset(&no_url, ".exe"), Err("资产缺少下载地址".to_string()));
    assert!(release_asset(&JsonValue::Null, ".exe").is_err());
}

#[test]
fn install_and_update_requests() {
    assert_eq!(dsh_install_request(true, false), Ok(false));
    assert_eq!(dsh_install_request(false, true), Ok(true));
    assert_eq!(
        dsh_install_request(false, false),
        Err("未检测到 npm，无法安装 DSH（请先安装 Node.js）".to_string())
    );
    assert_eq!(dsh_update_request(true, true), Ok(false));
    assert_eq!(dsh_update_request(false, true), Ok(true));
    assert_eq!(dsh_update_request(false, false), Err("未检测到 npm，无法更新 DSH".to_string()));
}

#[test]
fn npm_outcomes_carry_the_exit_code() {
    assert_eq!(npm_install_result(true, Some(0)), Ok(()));
    assert_eq!(npm_install_result(false, Some(1)), Err("npm 安装失败 (exit Some(1))".to_string()));
    assert_eq!(npm_install_result(false, None), Err("npm 安装失败 (exit None)".to_string()));
    assert_eq!(npm_update_result(true, None), Ok(()));
    assert_eq!(npm_update_result(false, Some(-2)), Err("npm 更新失败 (exit Some(-2))".to_string()));
    assert_eq!(
        npm_update_result(false, Some(1)).unwrap_err(),
        format!("npm 更新失败 (exit {:?})", Some(1))
    );
}

#[test]
fn asset_names_are_checked_before_saving() {
    assert_eq!(safe_asset_name("DSH.Desktop_0.2.0.dmg"), Ok("DSH.Desktop_0.2.0.dmg".to_string()));
    assert_eq!(safe_asset_name("dir/setup.exe"), Ok("setup.exe".to_string()));
    assert_eq!(safe_asset_name("../x.dmg"), Ok("x.dmg".to_string()));
    assert_eq!(safe_asset_name("/a/b/c.AppImage"), Ok("c.AppImage".to_string()));
    assert_eq!(safe_asset_name("a/.."), Err("资产名称无效: a/..".to_string()));
    assert_eq!(safe_asset_name(".."), Err("资产名称无效: ..".to_string()));
    assert_eq!(safe_asset_name(""), Err("资产名称无效: ".to_string()));
    assert_eq!(asset_file_name_verdict("x/.", Some(".")), Err("资产名称无效: x/.".to_string()));
    assert_eq!(asset_file_name_verdict("a/b", Some("b")), Ok("b".to_string()));
    assert_eq!(asset_file_name_verdict("a/..", None), Err("资产名称无效: a/..".to_string()));
}
