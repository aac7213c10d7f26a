use dsh_desktop::embedded::{
    overlay_content, plugin_package, plugins_resource_dir, reuse_installed, target_has_version,
    ManifestProblem, MountedPlugin,
};
use dsh_desktop::json::JsonValue;
use std::path::Path;

fn manifest(entries: Vec<(&str, JsonValue)>) -> JsonValue {
    JsonValue::Object(entries.into_iter().map(|(k, v)| (k.to_string(), v)).collect())
}

fn text(s: &str) -> JsonValue {
    JsonValue::Str(s.to_string())
}

#[test]
fn dev_plugins_resource_dir_points_to_source_resources() {
    let manifest_dir = "/work/apps/shell/src-tauri";
    let path = plugins_resource_dir(true, manifest_dir, Some("/app/res")).expect("development builds use the source resources");
    let path = Path::new(&path);
    assert_eq!(path.file_name().unwrap(), "resources");
    assert_eq!(path, Path::new(manifest_dir).join("resources"));
    assert_eq!(path.join("plugins"), Path::new("/work/apps/shell/src-tauri/resources/plugins"));
}

#[test]
fn release_plugins_resource_dir_follows_the_bundle() {
    assert_eq!(plugins_resource_dir(false, "/src", None), None);
    let dir = plugins_resource_dir(false, "/src", Some("/app/res")).unwrap();
    assert_eq!(Path::new(&dir), Path::new("/app/res/resources"));
    assert_eq!(plugins_resource_dir(false, "/src", Some("/app/res/")).unwrap(), "/app/res/resources");
    assert_eq!(plugins_resource_dir(true, "", None).unwrap(), "resources");
}

#[test]
fn write_overlay_quotes_names() {
    let mounted = vec![
        MountedPlugin { id: "bridge".into(), name: "@dsh-desktop/plugin-bridge".into() },
        MountedPlugin { id: "projects".into(), name: "@dsh-desktop/plugin-projects".into() },
    ];
    let content = overlay_content(&mounted).expect("overlay");
    assert!(content.contains("- insert:\n    - id: bridge\n      name: '@dsh-desktop/plugin-bridge'\n"));
    assert!(content.contains("- insert:\n    - id: projects\n      name: '@dsh-desktop/plugin-projects'\n"));
    assert_eq!(
        content,
        "- insert:\n    - id: bridge\n      name: '@dsh-desktop/plugin-bridge'\n- insert:\n    - id: projects\n      name: '@dsh-desktop/plugin-projects'\n"
    );
}

#[test]
fn write_overlay_none_when_empty() {
    assert!(overlay_content(&[]).is_none());
}

#[test]
fn package_needs_id_then_name() {
    let full = manifest(vec![
        ("name", text("@dsh-desktop/plugin-bridge")),
        ("version", text("0.1.0")),
        ("dshDesktop", manifest(vec![("id", text("bridge"))])),
    ]);
    let package = plugin_package(&full).unwrap();
    assert_eq!(package.id, "bridge");
    assert_eq!(package.name, "@dsh-desktop/plugin-bridge");
    assert_eq!(package.version, "0.1.0");

    let no_id = manifest(vec![("name", text("@dsh-desktop/no-id")), ("version", text("1.0.0"))]);
    assert_eq!(plugin_package(&no_id).unwrap_err(), ManifestProblem::MissingId);

    let no_name = manifest(vec![("dshDesktop", manifest(vec![("id", text("x"))]))]);
    assert_eq!(plugin_package(&no_name).unwrap_err(), ManifestProblem::MissingName);

    let no_version = manifest(vec![("name", text("n")), ("dshDesktop", manifest(vec![("id", text("x"))]))]);
    assert_eq!(plugin_package(&no_version).unwrap().version, "");
}

#[test]
fn installed_copy_is_reused_only_at_the_same_version() {
    let installed = manifest(vec![("version", text("0.1.0"))]);
    assert!(target_has_version(Some(&installed), "0.1.0"));
    assert!(!target_has_version(Some(&installed), "0.2.0"));
    assert!(!target_has_version(None, "0.1.0"));
    assert!(reuse_installed(false, Some(&installed), "0.1.0"));
    assert!(!reuse_installed(true, Some(&installed), "0.1.0"));
}
