use dsh_desktop::host_lifecycle::{HostLifecycle, HostPhase};
use dsh_desktop::manager::{
    accept_failure, dsh_version_text, manager_step, missing_dsh_message, HealthSignal, HealthWatch,
    ManagerAction, ManagerEvent,
};

#[test]
fn ready_of_current_generation_opens_the_window() {
    let mut lifecycle = HostLifecycle::new(3);
    let generation = lifecycle.begin_start();
    let action = manager_step(
        &mut lifecycle,
        ManagerEvent::Ready { generation, url: "http://127.0.0.1:5".into() },
    );
    assert_eq!(
        action,
        ManagerAction::Ready {
            url: "http://127.0.0.1:5".into(),
            message: "DSH 已就绪: http://127.0.0.1:5".into()
        }
    );
    assert_eq!(lifecycle.phase(), HostPhase::Ready);
    let stale = manager_step(&mut lifecycle, ManagerEvent::Ready { generation: 0, url: "x".into() });
    assert_eq!(stale, ManagerAction::Nothing);
}

#[test]
fn unexpected_exit_restarts_then_fails() {
    let mut lifecycle = HostLifecycle::new(1);
    let generation = lifecycle.begin_start();
    let action = manager_step(&mut lifecycle, ManagerEvent::Idle { exit: Some("exit code 1".into()) });
    assert_eq!(
        action,
        ManagerAction::Restart { log: "[desktop] DSH 进程意外退出 (exit code 1)，1/1 自动重启".into() }
    );
    let generation2 = lifecycle.begin_start();
    assert_eq!(generation2, generation + 1);
    let action = manager_step(&mut lifecycle, ManagerEvent::Idle { exit: Some("signal 9".into()) });
    assert_eq!(
        action,
        ManagerAction::FailGeneration { generation: generation2, message: "DSH 进程已退出 (signal 9)".into() }
    );
    assert_eq!(manager_step(&mut lifecycle, ManagerEvent::Idle { exit: None }), ManagerAction::Nothing);
}

#[test]
fn messages_of_old_generations_are_ignored() {
    let mut lifecycle = HostLifecycle::new(3);
    let generation = lifecycle.begin_start();
    lifecycle.invalidate();
    assert_eq!(manager_step(&mut lifecycle, ManagerEvent::Healthy { generation }), ManagerAction::Nothing);
    assert_eq!(manager_step(&mut lifecycle, ManagerEvent::Unhealthy { generation }), ManagerAction::Nothing);
    assert_eq!(manager_step(&mut lifecycle, ManagerEvent::ReadyTimeout { generation }), ManagerAction::Nothing);
}

#[test]
fn install_and_control_messages() {
    let mut lifecycle = HostLifecycle::new(3);
    assert_eq!(manager_step(&mut lifecycle, ManagerEvent::Start), ManagerAction::Start);
    assert_eq!(manager_step(&mut lifecycle, ManagerEvent::Stop), ManagerAction::Stop);
    assert_eq!(manager_step(&mut lifecycle, ManagerEvent::Shutdown), ManagerAction::Exit);
    assert_eq!(manager_step(&mut lifecycle, ManagerEvent::InstallFinished { error: None }), ManagerAction::Installed);
    assert_eq!(
        manager_step(&mut lifecycle, ManagerEvent::InstallFinished { error: Some("npm failed".into()) }),
        ManagerAction::Fail { message: "DSH 安装失败: npm failed".into() }
    );
    let generation = lifecycle.begin_start();
    assert_eq!(
        manager_step(&mut lifecycle, ManagerEvent::ReadinessError { generation, error: "bad".into() }),
        ManagerAction::FailGeneration { generation, message: "DSH 就绪输出无效: bad".into() }
    );
    assert_eq!(manager_step(&mut lifecycle, ManagerEvent::Healthy { generation }), ManagerAction::CommitHealthy);
}

#[test]
fn detection_texts() {
    assert_eq!(missing_dsh_message(true), "未检测到 DSH");
    assert_eq!(missing_dsh_message(false), "未检测到 Node.js，请先安装 Node.js");
    assert_eq!(dsh_version_text(" 1.2.3\n", "warn"), Some("1.2.3".to_string()));
    assert_eq!(dsh_version_text("  ", "v0.9\n"), Some("v0.9".to_string()));
    assert_eq!(dsh_version_text("", " "), None);
}

#[test]
fn a_generation_fails_once() {
    let mut failed = None;
    assert!(accept_failure(&mut failed, 4));
    assert!(!accept_failure(&mut failed, 4));
    assert!(accept_failure(&mut failed, 5));
    assert_eq!(failed, Some(5));
}

#[test]
fn health_watch_reports_first_pass_and_third_failure() {
    let mut watch = HealthWatch::new();
    assert_eq!(watch.observe(false), HealthSignal::Continue);
    assert_eq!(watch.observe(true), HealthSignal::Healthy);
    assert_eq!(watch.observe(true), HealthSignal::Continue);
    assert_eq!(watch.observe(false), HealthSignal::Continue);
    assert_eq!(watch.observe(false), HealthSignal::Continue);
    assert_eq!(watch.observe(false), HealthSignal::Unhealthy);
}
