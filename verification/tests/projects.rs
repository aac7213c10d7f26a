use dsh_desktop::projects::{
    add_project, add_worktree_project, branch_name, change_project, find_project, format_id,
    make_id, millis_of, name_or_path, numbered_name, remove_project, sanitize_component,
    update_project, worktree_dir_name, ProjectChange, ProjectEntry,
};

fn entry(id: &str, path: &str) -> ProjectEntry {
    ProjectEntry {
        id: id.into(),
        name: "demo".into(),
        path: path.into(),
        pinned: true,
        archived_chats: true,
        unread_chats: 3,
        read_at: Some(42),
        created_at: 1,
        updated_at: 2,
    }
}

#[test]
fn sanitize_component_keeps_cjk() {
    assert_eq!(sanitize_component("My 项目/测试!"), "My-项目-测试");
    assert_eq!(sanitize_component("..."), "worktree");
}

#[test]
fn sanitize_component_is_stable() {
    for input in ["My 项目/测试!", "...", "-a.b_c-", "wt/x y", ""] {
        let once = sanitize_component(input);
        assert_eq!(sanitize_component(&once), once);
    }
}

#[test]
fn worktree_names() {
    assert_eq!(worktree_dir_name("demo app", None), "demo-app-worktree");
    assert_eq!(worktree_dir_name("demo", Some("  feature x ")), "feature-x");
    assert_eq!(worktree_dir_name("demo", Some("   ")), "demo-worktree");
    assert_eq!(numbered_name("demo-worktree", 2), "demo-worktree-2");
    assert_eq!(branch_name("demo-worktree"), "wt/demo-worktree");
}

#[test]
fn ids_join_time_and_hash() {
    assert_eq!(format_id(123, 0xab), "12300000000000000ab");
    let id = make_id("/tmp/demo");
    assert!(id.len() > 16);
    assert!(id[id.len() - 16..].chars().all(|c| c.is_ascii_hexdigit()));
    let again = make_id("/tmp/demo");
    assert_eq!(id[id.len() - 16..], again[again.len() - 16..]);
    let other = make_id("/tmp/other");
    assert_ne!(id[id.len() - 16..], other[other.len() - 16..]);
    assert_eq!(millis_of(2, 5_000_000), 2005);
}

#[test]
fn adding_refuses_missing_dirs_and_duplicates() {
    let mut entries = vec![entry("a", "/tmp/a")];
    assert_eq!(
        add_project(&mut entries, "/tmp/b", false, "b".into(), "id-b".into(), 9).unwrap_err(),
        "目录不存在: /tmp/b"
    );
    assert_eq!(
        add_project(&mut entries, "/tmp/a", true, "a".into(), "id-x".into(), 9).unwrap_err(),
        "项目已在列表中"
    );
    let added = add_project(&mut entries, "/tmp/b", true, "b".into(), "id-b".into(), 9).unwrap();
    assert_eq!(added.path, "/tmp/b");
    assert!(!added.pinned && !added.archived_chats);
    assert_eq!((added.unread_chats, added.read_at, added.created_at, added.updated_at), (0, None, 9, 9));
    assert_eq!(entries.len(), 2);
    assert_eq!(
        add_worktree_project(&mut entries, "/tmp/b", "b".into(), "id-c".into(), 10).unwrap_err(),
        "工作树已在项目列表中"
    );
}

#[test]
fn name_defaults_to_path() {
    assert_eq!(name_or_path(Some("demo".into()), "/tmp/demo"), "demo");
    assert_eq!(name_or_path(None, "/"), "/");
}

#[test]
fn editing_keeps_pin_and_chat_state() {
    let mut entries = vec![entry("a", "/tmp/a"), entry("b", "/tmp/b")];
    let mut edit = entry("b", "/tmp/b2");
    edit.name = "  renamed ".into();
    edit.pinned = false;
    let updated = update_project(&mut entries, &edit, true, 50).unwrap();
    assert_eq!(updated.name, "renamed");
    assert_eq!(updated.path, "/tmp/b2");
    assert!(updated.pinned);
    assert_eq!(updated.updated_at, 50);
    assert_eq!(entries[1], updated);
    edit.name = " ".into();
    assert_eq!(update_project(&mut entries, &edit, true, 51).unwrap_err(), "项目名称不能为空");
    edit.name = "x".into();
    assert_eq!(update_project(&mut entries, &edit, false, 51).unwrap_err(), "目录不存在: /tmp/b2");
    edit.id = "missing".into();
    assert_eq!(update_project(&mut entries, &edit, true, 51).unwrap_err(), "项目不存在");
}

#[test]
fn removing_and_changing() {
    let mut entries = vec![entry("a", "/tmp/a"), entry("b", "/tmp/b")];
    assert_eq!(remove_project(&mut entries, "zzz").unwrap_err(), "项目不存在");
    assert_eq!(entries.len(), 2);
    remove_project(&mut entries, "a").unwrap();
    assert_eq!(entries.len(), 1);
    assert_eq!(find_project(&entries, "a").unwrap_err(), "项目不存在");
    let read = change_project(&mut entries, "b", ProjectChange::Read(77), 78).unwrap();
    assert_eq!(read.unread_chats, 0);
    assert_eq!(read.read_at, Some(77));
    assert_eq!(read.updated_at, 78);
    let pinned = change_project(&mut entries, "b", ProjectChange::Pinned(false), 79).unwrap();
    assert!(!pinned.pinned);
    let archived = change_project(&mut entries, "b", ProjectChange::ArchivedChats(false), 80).unwrap();
    assert!(!archived.archived_chats);
    assert_eq!(find_project(&entries, "b").unwrap(), archived);
}
