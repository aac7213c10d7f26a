//! The decisions of the `dsh web` manager loop: for each message (or idle poll) the
//! lifecycle moves on and one action is chosen for the caller to perform.
use crate::host_lifecycle::{HostLifecycle, HostPhase, RestartDecision};
use crate::text::{decimal, push_decimal, to_string, trim, seq_trim};
use vstd::prelude::*;

verus! {

/// What the manager loop receives.
#[derive(Debug)]
pub enum ManagerEvent {
    /// A start was requested (by the user or at launch).
    Start,
    Stop,
    Shutdown,
    /// `dsh web` announced its URL.
    Ready { generation: u64, url: String },
    /// No URL line came in time.
    ReadyTimeout { generation: u64 },
    /// The URL line could not be used.
    ReadinessError { generation: u64, error: String },
    /// An install of dsh ended (`error` is `None` on success).
    InstallFinished { error: Option<String> },
    /// Health checks kept failing.
    Unhealthy { generation: u64 },
    /// The first health check passed.
    Healthy { generation: u64 },
    /// The poll timed out; `exit` describes the child's exit when it has exited.
    Idle { exit: Option<String> },
    /// Every sender is gone.
    Disconnected,
}

/// What the manager does in answer.
#[derive(Debug, PartialEq, Eq)]
pub enum ManagerAction {
    /// Nothing to do.
    Nothing,
    /// Start `dsh web` (the restart budget has been reset).
    Start,
    /// Stop the child and show the stopped phase.
    Stop,
    /// Stop the child and leave the loop.
    Exit,
    /// Show the ready phase with `message`, notify, and open the window at `url`.
    Ready { url: String, message: String },
    /// Fail the given generation with `message`.
    FailGeneration { generation: u64, message: String },
    /// The install succeeded: log and notify, then start (the budget has been reset).
    Installed,
    /// Fail with `message`.
    Fail { message: String },
    /// Commit the profile that started as healthy.
    CommitHealthy,
    /// Log `log`, roll the profile back, and start again.
    Restart { log: String },
}

/// The log line of an automatic restart.
pub open spec fn restart_log(exit: Seq<char>, attempt: u32, limit: u32) -> Seq<char> {
    "[desktop] DSH 进程意外退出 ("@ + exit + ")，"@ + decimal(attempt as nat) + "/"@ + decimal(limit as nat)
        + " 自动重启"@
}

fn prefixed(prefix: &str, text: &str) -> (r: String)
    ensures
        r@ == prefix@ + text@,
{
    let mut s = to_string(prefix);
    s.append(text);
    s
}

fn text_with(prefix: &str, middle: &str, suffix: &str) -> (r: String)
    ensures
        r@ == prefix@ + middle@ + suffix@,
{
    let mut s = to_string(prefix);
    s.append(middle);
    s.append(suffix);
    s
}

/// One step of the manager loop.
pub fn manager_step(lifecycle: &mut HostLifecycle, event: ManagerEvent) -> (r: ManagerAction)
    requires
        old(lifecycle).wf(),
    ensures
        final(lifecycle).wf(),
        final(lifecycle).spec_generation() == old(lifecycle).spec_generation(),
        final(lifecycle).spec_max_auto_restarts() == old(lifecycle).spec_max_auto_restarts(),
        event is Start ==> r == ManagerAction::Start && *final(lifecycle) == old(lifecycle).restarts_reset(),
        event is Stop ==> r == ManagerAction::Stop && *final(lifecycle) == *old(lifecycle),
        event is Shutdown || event is Disconnected ==> r == ManagerAction::Exit && *final(lifecycle) == *old(
            lifecycle,
        ),
        event matches ManagerEvent::Ready { generation, url } ==> if old(lifecycle).spec_generation() == generation {
            &&& r matches ManagerAction::Ready { url: u, message: m }
            &&& u@ == url@
            &&& m@ == "DSH 已就绪: "@ + url@
            &&& final(lifecycle).spec_phase() == HostPhase::Ready
            &&& final(lifecycle).spec_auto_restarts() == old(lifecycle).spec_auto_restarts()
        } else {
            &&& r == ManagerAction::Nothing
            &&& final(lifecycle).spec_phase() == old(lifecycle).spec_phase()
            &&& final(lifecycle).spec_auto_restarts() == old(lifecycle).spec_auto_restarts()
        },
        event matches ManagerEvent::ReadyTimeout { generation } ==> *final(lifecycle) == *old(lifecycle) && if old(
            lifecycle,
        ).spec_generation() == generation {
            r matches ManagerAction::FailGeneration { generation: g, message: m } && g == generation && m@
                == "DSH 未输出 URL line，等待超时"@
        } else {
            r == ManagerAction::Nothing
        },
        event matches ManagerEvent::ReadinessError { generation, error } ==> *final(lifecycle) == *old(lifecycle)
            && if old(lifecycle).spec_generation() == generation {
            r matches ManagerAction::FailGeneration { generation: g, message: m } && g == generation && m@
                == "DSH 就绪输出无效: "@ + error@
        } else {
            r == ManagerAction::Nothing
        },
        event matches ManagerEvent::InstallFinished { error } ==> match error {
            None => r == ManagerAction::Installed && *final(lifecycle) == old(lifecycle).restarts_reset(),
            Some(e) => *final(lifecycle) == *old(lifecycle) && (r matches ManagerAction::Fail { message: m } && m@
                == "DSH 安装失败: "@ + e@),
        },
        event matches ManagerEvent::Unhealthy { generation } ==> *final(lifecycle) == *old(lifecycle) && if old(
            lifecycle,
        ).spec_generation() == generation {
            r matches ManagerAction::FailGeneration { generation: g, message: m } && g == generation && m@
                == "DSH 健康检查连续失败"@
        } else {
            r == ManagerAction::Nothing
        },
        event matches ManagerEvent::Healthy { generation } ==> *final(lifecycle) == *old(lifecycle) && if old(
            lifecycle,
        ).spec_generation() == generation {
            r == ManagerAction::CommitHealthy
        } else {
            r == ManagerAction::Nothing
        },
        event matches ManagerEvent::Idle { exit } ==> match exit {
            None => r == ManagerAction::Nothing && *final(lifecycle) == *old(lifecycle),
            Some(x) => {
                let (decision, next) = old(lifecycle).after_exit(old(lifecycle).spec_generation());
                &&& *final(lifecycle) == next
                &&& match decision {
                    RestartDecision::Ignore => r == ManagerAction::Nothing,
                    RestartDecision::Restart { attempt, limit } => r matches ManagerAction::Restart { log } && log@
                        == restart_log(x@, attempt, limit),
                    RestartDecision::Fail => r matches ManagerAction::FailGeneration { generation: g, message: m }
                        && g == old(lifecycle).spec_generation() && m@ == "DSH 进程已退出 ("@ + x@ + ")"@,
                }
            },
        },
{
    match &event {
        ManagerEvent::Start => {
            lifecycle.reset_restarts();
            ManagerAction::Start
        },
        ManagerEvent::Stop => ManagerAction::Stop,
        ManagerEvent::Shutdown => ManagerAction::Exit,
        ManagerEvent::Disconnected => ManagerAction::Exit,
        ManagerEvent::Ready { generation, url } => {
            if lifecycle.accept_ready(*generation) {
                let message = prefixed("DSH 已就绪: ", url.as_str());
                ManagerAction::Ready { url: url.clone(), message }
            } else {
                ManagerAction::Nothing
            }
        },
        ManagerEvent::ReadyTimeout { generation } => {
            if lifecycle.is_current(*generation) {
                ManagerAction::FailGeneration {
                    generation: *generation,
                    message: String::from_str("DSH 未输出 URL line，等待超时"),
                }
            } else {
                ManagerAction::Nothing
            }
        },
        ManagerEvent::ReadinessError { generation, error } => {
            if lifecycle.is_current(*generation) {
                ManagerAction::FailGeneration {
                    generation: *generation,
                    message: prefixed("DSH 就绪输出无效: ", error.as_str()),
                }
            } else {
                ManagerAction::Nothing
            }
        },
        ManagerEvent::InstallFinished { error } => match error {
            None => {
                lifecycle.reset_restarts();
                ManagerAction::Installed
            },
            Some(e) => ManagerAction::Fail { message: prefixed("DSH 安装失败: ", e.as_str()) },
        },
        ManagerEvent::Unhealthy { generation } => {
            if lifecycle.is_current(*generation) {
                ManagerAction::FailGeneration { generation: *generation, message: String::from_str("DSH 健康检查连续失败") }
            } else {
                ManagerAction::Nothing
            }
        },
        ManagerEvent::Healthy { generation } => {
            if lifecycle.is_current(*generation) {
                ManagerAction::CommitHealthy
            } else {
                ManagerAction::Nothing
            }
        },
        ManagerEvent::Idle { exit } => match exit {
            None => ManagerAction::Nothing,
            Some(x) => {
                let generation = lifecycle.generation();
                match lifecycle.on_unexpected_exit(generation) {
                    RestartDecision::Ignore => ManagerAction::Nothing,
                    RestartDecision::Restart { attempt, limit } => {
                        let mut log = text_with("[desktop] DSH 进程意外退出 (", x.as_str(), ")，");
                        push_decimal(&mut log, attempt as u128);
                        log.append("/");
                        push_decimal(&mut log, limit as u128);
                        log.append(" 自动重启");
                        ManagerAction::Restart { log }
                    },
                    RestartDecision::Fail => ManagerAction::FailGeneration {
                        generation,
                        message: text_with("DSH 进程已退出 (", x.as_str(), ")"),
                    },
                }
            },
        },
    }
}

/// The message shown when dsh cannot be found: whether Node.js was found decides
/// which.
pub fn missing_dsh_message(node_found: bool) -> (r: &'static str)
    ensures
        node_found ==> r@ == "未检测到 DSH"@,
        !node_found ==> r@ == "未检测到 Node.js，请先安装 Node.js"@,
{
    if node_found {
        "未检测到 DSH"
    } else {
        "未检测到 Node.js，请先安装 Node.js"
    }
}

/// The version dsh reports for `--version`: its trimmed standard output, or its
/// trimmed standard error when the output is blank; `None` when both are blank.
pub open spec fn reported_version(stdout: Seq<char>, stderr: Seq<char>) -> Option<Seq<char>> {
    let out = seq_trim(stdout);
    let v = if out.len() > 0 {
        out
    } else {
        seq_trim(stderr)
    };
    if v.len() > 0 {
        Some(v)
    } else {
        None
    }
}

pub fn dsh_version_text(stdout: &str, stderr: &str) -> (r: Option<String>)
    ensures
        match reported_version(stdout@, stderr@) {
            Some(v) => r matches Some(s) && s@ == v,
            None => r is None,
        },
{
    let out = trim(stdout);
    let v = if out.unicode_len() > 0 {
        out
    } else {
        trim(stderr)
    };
    if v.unicode_len() > 0 {
        Some(to_string(v))
    } else {
        None
    }
}

/// Consecutive failed health checks after which a run is reported unhealthy.
pub const UNHEALTHY_AFTER: u32 = 3;

/// Whether a failure of `generation` is handled, and the latch after it.
pub open spec fn accepted(failed: Option<u64>, generation: u64) -> (bool, Option<u64>) {
    (failed != Some(generation), Some(generation))
}

/// Records that `generation` failed; `false` when that generation's failure was
/// already handled (readers, health checks and the exit watch may all report it).
pub fn accept_failure(failed: &mut Option<u64>, generation: u64) -> (r: bool)
    ensures
        (r, *final(failed)) == accepted(*old(failed), generation),
{
    if *failed == Some(generation) {
        return false;
    }
    *failed = Some(generation);
    true
}

/// A start fails at most once: once a failure of a generation is handled, a second
/// report of the same generation is refused, whatever was latched before.
pub proof fn law_failure_reported_once(failed: Option<u64>, generation: u64)
    ensures
        !accepted(accepted(failed, generation).1, generation).0,
{
}

/// What the health checks of one run have seen so far.
#[derive(Debug, Clone, Copy, PartialEq, Eq)]
pub struct HealthWatch {
    /// Failed checks since the last passing one.
    pub failures: u32,
    /// Whether the run was already reported healthy.
    pub healthy_sent: bool,
}

/// What one health check leads to.
#[derive(Debug, Clone, Copy, PartialEq, Eq, Structural)]
pub enum HealthSignal {
    /// Keep checking.
    Continue,
    /// The first passing check of the run: report it healthy.
    Healthy,
    /// Too many failures in a row: report it unhealthy and stop checking.
    Unhealthy,
}

impl HealthWatch {
    pub fn new() -> (r: Self)
        ensures
            r.failures == 0,
            !r.healthy_sent,
    {
        HealthWatch { failures: 0, healthy_sent: false }
    }

    /// Takes the result of one check: a pass clears the failures (and is reported the
    /// first time), a failure counts, and the third in a row ends the watch.
    pub fn observe(&mut self, ok: bool) -> (r: HealthSignal)
        requires
            old(self).failures < UNHEALTHY_AFTER,
        ensures
            (final(self).failures as nat, final(self).healthy_sent) == watch_step(
                (old(self).failures as nat, old(self).healthy_sent),
                ok,
            ),
            ok ==> final(self).failures == 0 && final(self).healthy_sent && r == (if old(self).healthy_sent {
                HealthSignal::Continue
            } else {
                HealthSignal::Healthy
            }),
            !ok ==> final(self).failures == old(self).failures + 1 && final(self).healthy_sent == old(
                self,
            ).healthy_sent && r == (if old(self).failures + 1 >= UNHEALTHY_AFTER {
                HealthSignal::Unhealthy
            } else {
                HealthSignal::Continue
            }),
    {
        if ok {
            self.failures = 0;
            if !self.healthy_sent {
                self.healthy_sent = true;
                return HealthSignal::Healthy;
            }
            HealthSignal::Continue
        } else {
            self.failures = self.failures + 1;
            if self.failures >= UNHEALTHY_AFTER {
                HealthSignal::Unhealthy
            } else {
                HealthSignal::Continue
            }
        }
    }
}

/// One check taken by the watch (failures since the last pass, passed yet): a pass
/// clears the failures, a failure adds one.
pub open spec fn watch_step(w: (nat, bool), ok: bool) -> (nat, bool) {
    if ok {
        (0, true)
    } else {
        ((w.0 + 1) as nat, w.1)
    }
}

/// The watch after a sequence of check results, started fresh: the failures since
/// the last pass, and whether any check passed.
pub open spec fn watch_after(checks: Seq<bool>) -> (nat, bool)
    decreases checks.len(),
{
    if checks.len() == 0 {
        (0, false)
    } else {
        let before = watch_after(checks.drop_last());
        if checks.last() {
            (0, true)
        } else {
            ((before.0 + 1) as nat, before.1)
        }
    }
}

/// The number of failed checks at the end of a sequence.
pub open spec fn trailing_failures(checks: Seq<bool>) -> nat
    decreases checks.len(),
{
    if checks.len() == 0 || checks.last() {
        0
    } else {
        (trailing_failures(checks.drop_last()) + 1) as nat
    }
}

/// Over any run of checks, the failure count is the number of failures since the
/// last pass, and the run is marked healthy exactly when some check passed; so
/// `Unhealthy` only follows `UNHEALTHY_AFTER` failures in a row, and `Healthy` is
/// signalled at the first pass only.
pub proof fn law_health_watch_counts_consecutive_failures(checks: Seq<bool>)
    ensures
        watch_after(checks).0 == trailing_failures(checks),
        watch_after(checks).1 == (exists|i: int| 0 <= i < checks.len() && checks[i]),
    decreases checks.len(),
{
    if checks.len() > 0 {
        let rest = checks.drop_last();
        law_health_watch_counts_consecutive_failures(rest);
        if !checks.last() {
            assert((exists|i: int| 0 <= i < checks.len() && checks[i]) == (exists|i: int| 0 <= i < rest.len() && rest[i])) by {
                if exists|i: int| 0 <= i < checks.len() && checks[i] {
                    let i = choose|i: int| 0 <= i < checks.len() && checks[i];
                    assert(i < rest.len());
                    assert(rest[i] == checks[i]);
                }
                if exists|i: int| 0 <= i < rest.len() && rest[i] {
                    let i = choose|i: int| 0 <= i < rest.len() && rest[i];
                    assert(checks[i] == rest[i]);
                }
            }
        } else {
            assert(checks[checks.len() - 1]);
        }
    }
}

} // verus!
