use dsh_desktop::json::JsonValue;
use dsh_desktop::profiles::{
    begin_startup, is_listed_profile_dir, is_valid_profile_name, mark_healthy, profile_summary,
    recover_state, rollback_startup, select_profile, sort_profiles, DshProfileSummary,
    ManifestRead, ProfileState,
};

fn text(s: &str) -> JsonValue {
    JsonValue::Str(s.to_string())
}

fn object(entries: Vec<(&str, JsonValue)>) -> JsonValue {
    JsonValue::Object(entries.into_iter().map(|(k, v)| (k.to_string(), v)).collect())
}

fn manifest(name: &str, bundles: JsonValue) -> JsonValue {
    object(vec![
        ("name", text(name)),
        ("dsh", object(vec![("profile", object(vec![("bundles", bundles)]))])),
    ])
}

fn summary(name: &str, web_capable: bool) -> DshProfileSummary {
    DshProfileSummary {
        name: name.into(),
        dir: format!("/home/profiles/{name}"),
        exists: true,
        web_capable,
        problem: if web_capable { None } else { Some("x".into()) },
    }
}

fn state(active: &str, pending: Option<&str>, last_known_good: &str) -> ProfileState {
    ProfileState {
        version: 1,
        active: active.into(),
        pending: pending.map(|p| p.to_string()),
        last_known_good: last_known_good.into(),
    }
}

#[test]
fn list_profiles_marks_invalid_manifests() {
    let web = profile_summary(
        "web".into(),
        "/h/profiles/web".into(),
        ManifestRead::Parsed(manifest(
            "dsh-profile-web",
            JsonValue::Array(vec![text("@deepseek-ai/dsh-base"), text("@deepseek-ai/dsh-web-app")]),
        )),
    );
    assert!(web.exists && web.web_capable && web.problem.is_none());

    let wrong_order = profile_summary(
        "wrong-order".into(),
        "/h/profiles/wrong-order".into(),
        ManifestRead::Parsed(manifest(
            "w",
            JsonValue::Array(vec![text("@deepseek-ai/dsh-web-app"), text("@deepseek-ai/dsh-base")]),
        )),
    );
    assert!(wrong_order.exists && !wrong_order.web_capable && wrong_order.problem.is_some());

    let broken = profile_summary("broken".into(), "/h/b".into(), ManifestRead::ParseFailed("eof".into()));
    assert!(broken.exists && !broken.web_capable && broken.problem.is_some());

    let missing_bundles = profile_summary(
        "missing-bundles".into(),
        "/h/m".into(),
        ManifestRead::Parsed(object(vec![("dsh", object(vec![("profile", object(vec![]))]))])),
    );
    assert!(!missing_bundles.web_capable && missing_bundles.problem.is_some());

    let non_string = profile_summary(
        "non-string-bundles".into(),
        "/h/n".into(),
        ManifestRead::Parsed(manifest("n", JsonValue::Array(vec![JsonValue::Number("1".into())]))),
    );
    assert!(!non_string.web_capable && non_string.problem.is_some());

    assert!(!is_listed_profile_dir("node_modules"));
    assert!(!is_listed_profile_dir(".cache"));
    assert!(is_listed_profile_dir("web"));
}

#[test]
fn profiles_are_sorted_by_name() {
    let sorted = sort_profiles(vec![summary("web", true), summary("alpha", true), summary("mid", false)]);
    let names: Vec<&str> = sorted.iter().map(|p| p.name.as_str()).collect();
    assert_eq!(names, vec!["alpha", "mid", "web"]);
}

#[test]
fn begin_startup_prioritizes_pending_and_clears_it() {
    let profiles = vec![summary("web", true), summary("custom", true)];
    let (context, next) = begin_startup(&state("web", Some("custom"), "web"), &profiles);
    assert_eq!(context.active, "custom");
    assert_eq!(context.last_known_good, "web");
    assert_eq!(next.active, "custom");
    assert_eq!(next.pending, None);
    assert_eq!(next.last_known_good, "web");
}

#[test]
fn begin_startup_normalizes_invalid_last_known_good_to_web() {
    let profiles = vec![summary("broken", false)];
    let (context, next) = begin_startup(&state("broken", None, "missing"), &profiles);
    assert_eq!(context.active, "web");
    assert_eq!(context.last_known_good, "web");
    assert_eq!(next.last_known_good, "web");
    assert_eq!(rollback_startup(&next).active, "web");
}

#[test]
fn begin_startup_rolls_back_invalid_pending_to_last_known_good() {
    let profiles = vec![summary("web", true)];
    let (context, next) = begin_startup(&state("web", Some("missing"), "web"), &profiles);
    assert_eq!(context.active, "web");
    assert_eq!(context.last_known_good, "web");
    assert_eq!(next.active, "web");
    assert_eq!(next.pending, None);
}

#[test]
fn select_profile_writes_pending_without_changing_active() {
    let profiles = vec![summary("web", true), summary("custom", true)];
    let next = select_profile(&state("web", None, "web"), &profiles, "custom").unwrap();
    assert_eq!(next.active, "web");
    assert_eq!(next.pending.as_deref(), Some("custom"));
    assert_eq!(next.last_known_good, "web");
    assert_eq!(select_profile(&next, &profiles, "../x").unwrap_err(), "无效 profile 名称");
    assert_eq!(
        select_profile(&next, &profiles, "ghost").unwrap_err(),
        "profile ghost 不存在或不可作为 web profile"
    );
}

#[test]
fn mark_healthy_commits_last_known_good() {
    let next = mark_healthy(&state("custom", Some("custom"), "web"), "custom").unwrap();
    assert_eq!(next.active, "custom");
    assert_eq!(next.last_known_good, "custom");
    assert_eq!(next.pending, None);
}

#[test]
fn mark_healthy_rejects_active_mismatch() {
    assert!(mark_healthy(&state("web", None, "web"), "custom").is_err());
}

#[test]
fn rollback_startup_returns_to_last_known_good() {
    let next = rollback_startup(&state("custom", Some("custom"), "web"));
    assert_eq!(next.active, "web");
    assert_eq!(next.pending, None);
    assert_eq!(next.last_known_good, "web");
}

#[test]
fn damaged_state_recovers_to_default() {
    let recovered = recover_state(None);
    assert_eq!(recovered, state("web", None, "web"));
    let wrong_version = ProfileState { version: 9, ..state("custom", None, "custom") };
    assert_eq!(recover_state(Some(wrong_version)), state("web", None, "web"));
    let bad_names = recover_state(Some(state("../x", Some("node_modules"), "")));
    assert_eq!(bad_names, state("web", None, "web"));
    assert!(is_valid_profile_name("custom"));
    assert!(!is_valid_profile_name("a/b"));
}
