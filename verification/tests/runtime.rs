use dsh_desktop::runtime::second_instance_launch;
use dsh_desktop::projects::now_millis;
use dsh_desktop::runtime::{
    ack_deeplink, append_log, enqueue_launch_payload, enqueue_pending_deeplink,
    get_pending_deeplinks, stream_log_line, tray_menu_state, tray_phase_label, DeepLinkPayload,
    Inner, RuntimePhase, MAX_LOGS, MAX_PENDING_DEEPLINKS,
};

fn test_deeplink_payload(id: &str, url: &str, received_at: &str) -> DeepLinkPayload {
    DeepLinkPayload {
        id: id.to_string(),
        url: url.to_string(),
        raw: url.to_string(),
        received_at: received_at.to_string(),
        source: "deep_link".to_string(),
        args: Vec::new(),
        cwd: String::new(),
    }
}

#[test]
fn pending_deeplinks_prune_expired_entries() {
    let mut inner = Inner::new(None);
    let now = now_millis();
    inner
        .pending_deeplinks
        .push(test_deeplink_payload("dl-1", "dsh-desktop://old", "1"));
    inner.pending_deeplinks.push(test_deeplink_payload(
        "dl-2",
        "dsh-desktop://new",
        &now.saturating_sub(1).to_string(),
    ));

    inner.prune_expired_pending_deeplinks(now);

    assert_eq!(inner.pending_deeplinks.len(), 1);
    assert_eq!(inner.pending_deeplinks[0].id, "dl-2");
}

#[test]
fn pending_deeplinks_deduplicate_same_payload() {
    let mut inner = Inner::new(None);
    let now_ms = now_millis();
    let now = now_ms.to_string();
    let payload = test_deeplink_payload("dl-1", "dsh-desktop://session/1", &now);

    assert!(enqueue_pending_deeplink(&mut inner, &payload, now_ms));
    assert!(!enqueue_pending_deeplink(&mut inner, &payload, now_ms));
    assert_eq!(inner.pending_deeplinks.len(), 1);
}

#[test]
fn pending_deeplinks_drop_oldest_beyond_limit() {
    let mut inner = Inner::new(None);
    let now = now_millis();
    for index in 0..(MAX_PENDING_DEEPLINKS + 5) {
        let payload = test_deeplink_payload(
            &format!("dl-{index}"),
            &format!("dsh-desktop://session/{index}"),
            &now.to_string(),
        );
        assert!(enqueue_pending_deeplink(&mut inner, &payload, now));
    }

    assert_eq!(inner.pending_deeplinks.len(), MAX_PENDING_DEEPLINKS);
    assert!(inner
        .pending_deeplinks
        .iter()
        .all(|payload| !payload.id.ends_with("dl-0")));
    assert_eq!(
        inner.pending_deeplinks.last().map(|payload| payload.id.as_str()),
        Some("dl-132")
    );
}

#[test]
fn tray_labels_cover_all_phases() {
    assert_eq!(tray_phase_label(&RuntimePhase::Detecting), "检测中");
    assert_eq!(tray_phase_label(&RuntimePhase::Ready), "已就绪");
    assert_eq!(tray_phase_label(&RuntimePhase::Stopped), "已停止");
}

#[test]
fn ack_removes_only_that_payload() {
    let mut inner = Inner::new(None);
    let now = now_millis();
    let a = test_deeplink_payload("dl-1", "dsh-desktop://a", &now.to_string());
    let b = test_deeplink_payload("dl-2", "dsh-desktop://b", &now.to_string());
    assert!(enqueue_pending_deeplink(&mut inner, &a, now));
    assert!(enqueue_pending_deeplink(&mut inner, &b, now));
    ack_deeplink(&mut inner, "dl-1");
    let left = get_pending_deeplinks(&mut inner, now);
    assert_eq!(left.len(), 1);
    assert_eq!(left[0].id, "dl-2");
}

#[test]
fn launch_payload_is_numbered_and_stamped() {
    let mut inner = Inner::new(None);
    let (first, queued) = enqueue_launch_payload(
        &mut inner,
        "deep_link".into(),
        "dsh-desktop://x".into(),
        "dsh-desktop://x".into(),
        vec![],
        String::new(),
        1000,
    );
    assert!(queued);
    assert_eq!(first.id, "dl-1");
    assert_eq!(first.received_at, "1000");
    let (second, queued_again) = enqueue_launch_payload(
        &mut inner,
        "deep_link".into(),
        "dsh-desktop://x".into(),
        "dsh-desktop://x".into(),
        vec![],
        String::new(),
        1001,
    );
    assert_eq!(second.id, "dl-2");
    assert!(!queued_again);
}

#[test]
fn log_tail_keeps_the_newest_lines() {
    let mut inner = Inner::new(None);
    for i in 0..(MAX_LOGS + 3) {
        append_log(&mut inner, &format!("line {i}"));
    }
    assert_eq!(inner.logs.len(), MAX_LOGS);
    assert_eq!(inner.logs[0], "line 3");
    assert_eq!(inner.logs.last().unwrap(), &format!("line {}", MAX_LOGS + 2));
}

#[test]
fn stream_lines_are_tagged_and_blank_ones_dropped() {
    assert_eq!(stream_log_line("stdout", "hello  \n"), Some("[stdout] hello".to_string()));
    assert_eq!(stream_log_line("stderr", "   "), None);
}

#[test]
fn tray_menu_follows_the_phase() {
    let mut inner = Inner::new(Some("/logs".into()));
    inner.set_phase(RuntimePhase::Ready, "ok".into(), Some("http://127.0.0.1:5".into()));
    let menu = tray_menu_state(&inner.snapshot());
    assert_eq!(menu.status_text, "DSH: 已就绪");
    assert!(menu.copy_url_enabled && menu.open_browser_enabled && menu.stop_enabled && menu.restart_enabled);
    assert_eq!(menu.tooltip, "DSH Desktop - 已就绪 (http://127.0.0.1:5)");

    inner.set_phase(RuntimePhase::Installing, "installing".into(), None);
    let menu = tray_menu_state(&inner.snapshot());
    assert!(!menu.copy_url_enabled && !menu.stop_enabled && !menu.restart_enabled);
    assert_eq!(menu.tooltip, "DSH Desktop - 安装中");
}

#[test]
fn snapshot_lists_newest_logs_first() {
    let mut inner = Inner::new(None);
    append_log(&mut inner, "first");
    append_log(&mut inner, "second");
    let snapshot = inner.snapshot();
    assert_eq!(snapshot.logs, vec!["second".to_string(), "first".to_string()]);
}

#[test]
fn second_launch_with_a_link_is_a_deep_link() {
    let args = vec!["dsh-desktop".to_string(), "--flag".into(), "dsh-desktop://session/1".into(), "dsh-desktop://x".into()];
    assert_eq!(second_instance_launch(&args), ("deep_link".to_string(), "dsh-desktop://session/1".to_string()));
    let plain = vec!["dsh-desktop".to_string()];
    assert_eq!(second_instance_launch(&plain), ("second_instance".to_string(), String::new()));
}
