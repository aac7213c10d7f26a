//! Host lifecycle state machine: generations, running phase and the automatic
//! restart budget of the managed `dsh web` process.
use vstd::prelude::*;

verus! {

/// Consecutive automatic restarts allowed before the host is marked failed.
pub const DEFAULT_AUTO_RESTART_LIMIT: u32 = 3;

#[derive(Debug, Clone, Copy, PartialEq, Eq, Structural)]
pub enum HostPhase {
    Stopped,
    Starting,
    Ready,
}

#[derive(Debug, Clone, Copy, PartialEq, Eq, Structural)]
pub enum RestartDecision {
    /// The event belongs to a generation that is no longer current.
    Ignore,
    Restart { attempt: u32, limit: u32 },
    Fail,
}

#[derive(Debug)]
pub struct HostLifecycle {
    generation: u64,
    phase: HostPhase,
    auto_restarts: u32,
    max_auto_restarts: u32,
}

impl HostLifecycle {
    pub closed spec fn spec_generation(&self) -> u64 {
        self.generation
    }

    pub closed spec fn spec_phase(&self) -> HostPhase {
        self.phase
    }

    pub closed spec fn spec_auto_restarts(&self) -> u32 {
        self.auto_restarts
    }

    pub closed spec fn spec_max_auto_restarts(&self) -> u32 {
        self.max_auto_restarts
    }

    /// The state after `begin_start`.
    pub closed spec fn started(self) -> Self {
        HostLifecycle { generation: (self.generation + 1) as u64, phase: HostPhase::Starting, ..self }
    }

    /// The state after `invalidate`.
    pub closed spec fn invalidated(self) -> Self {
        HostLifecycle { generation: (self.generation + 1) as u64, phase: HostPhase::Stopped, ..self }
    }

    /// The state after `reset_restarts`.
    pub closed spec fn restarts_reset(self) -> Self {
        HostLifecycle { auto_restarts: 0, ..self }
    }

    /// The decision and the state after `on_unexpected_exit(generation)`.
    pub closed spec fn after_exit(self, generation: u64) -> (RestartDecision, Self) {
        if self.generation != generation || self.phase == HostPhase::Stopped {
            (RestartDecision::Ignore, self)
        } else if self.auto_restarts < self.max_auto_restarts {
            let next = HostLifecycle {
                phase: HostPhase::Stopped,
                auto_restarts: (self.auto_restarts + 1) as u32,
                ..self
            };
            (
                RestartDecision::Restart {
                    attempt: next.auto_restarts,
                    limit: self.max_auto_restarts,
                },
                next,
            )
        } else {
            (RestartDecision::Fail, HostLifecycle { phase: HostPhase::Stopped, ..self })
        }
    }

    /// The restart counter never exceeds the budget.
    pub closed spec fn wf(&self) -> bool {
        self.auto_restarts <= self.max_auto_restarts
    }

    pub fn new(max_auto_restarts: u32) -> (r: Self)
        ensures
            r.wf(),
            r.spec_generation() == 0,
            r.spec_phase() == HostPhase::Stopped,
            r.spec_auto_restarts() == 0,
            r.spec_max_auto_restarts() == max_auto_restarts,
    {
        Self { generation: 0, phase: HostPhase::Stopped, auto_restarts: 0, max_auto_restarts }
    }

    pub fn generation(&self) -> (r: u64)
        ensures
            r == self.spec_generation(),
    {
        self.generation
    }

    pub fn phase(&self) -> (r: HostPhase)
        ensures
            r == self.spec_phase(),
    {
        self.phase
    }

    pub fn auto_restarts(&self) -> (r: u32)
        ensures
            r == self.spec_auto_restarts(),
            self.wf() ==> r <= self.spec_max_auto_restarts(),
    {
        self.auto_restarts
    }

    pub fn is_current(&self, generation: u64) -> (r: bool)
        ensures
            r == (self.spec_generation() == generation),
    {
        self.generation == generation
    }

    /// Clears the consecutive restart counter (manual start, finished install).
    pub fn reset_restarts(&mut self)
        requires
            old(self).wf(),
        ensures
            final(self).wf(),
            *final(self) == old(self).restarts_reset(),
            final(self).spec_auto_restarts() == 0,
            final(self).spec_generation() == old(self).spec_generation(),
            final(self).spec_phase() == old(self).spec_phase(),
            final(self).spec_max_auto_restarts() == old(self).spec_max_auto_restarts(),
    {
        self.auto_restarts = 0;
    }

    /// Enters a new start and returns its generation.
    pub fn begin_start(&mut self) -> (r: u64)
        requires
            old(self).wf(),
            old(self).spec_generation() < u64::MAX,
        ensures
            final(self).wf(),
            *final(self) == old(self).started(),
            r == old(self).spec_generation() + 1,
            final(self).spec_generation() == r,
            final(self).spec_phase() == HostPhase::Starting,
            final(self).spec_auto_restarts() == old(self).spec_auto_restarts(),
            final(self).spec_max_auto_restarts() == old(self).spec_max_auto_restarts(),
    {
        self.generation = self.generation + 1;
        self.phase = HostPhase::Starting;
        self.generation
    }

    /// Makes the current generation stale at once (cleanup, stop, exit).
    pub fn invalidate(&mut self)
        requires
            old(self).wf(),
            old(self).spec_generation() < u64::MAX,
        ensures
            final(self).wf(),
            *final(self) == old(self).invalidated(),
            final(self).spec_generation() == old(self).spec_generation() + 1,
            final(self).spec_phase() == HostPhase::Stopped,
            final(self).spec_auto_restarts() == old(self).spec_auto_restarts(),
            final(self).spec_max_auto_restarts() == old(self).spec_max_auto_restarts(),
    {
        self.generation = self.generation + 1;
        self.phase = HostPhase::Stopped;
    }

    /// Accepts a Ready message of the current generation only.
    pub fn accept_ready(&mut self, generation: u64) -> (r: bool)
        requires
            old(self).wf(),
        ensures
            final(self).wf(),
            r == (old(self).spec_generation() == generation),
            final(self).spec_phase() == (if r {
                HostPhase::Ready
            } else {
                old(self).spec_phase()
            }),
            final(self).spec_generation() == old(self).spec_generation(),
            final(self).spec_auto_restarts() == old(self).spec_auto_restarts(),
            final(self).spec_max_auto_restarts() == old(self).spec_max_auto_restarts(),
    {
        if !self.is_current(generation) {
            return false;
        }
        self.phase = HostPhase::Ready;
        true
    }

    /// Handles an unexpected exit of the running process.
    pub fn on_unexpected_exit(&mut self, generation: u64) -> (r: RestartDecision)
        requires
            old(self).wf(),
        ensures
            final(self).wf(),
            (r, *final(self)) == old(self).after_exit(generation),
            final(self).spec_generation() == old(self).spec_generation(),
            final(self).spec_max_auto_restarts() == old(self).spec_max_auto_restarts(),
            old(self).spec_generation() != generation || old(self).spec_phase()
                == HostPhase::Stopped ==> {
                &&& r == RestartDecision::Ignore
                &&& final(self).spec_phase() == old(self).spec_phase()
                &&& final(self).spec_auto_restarts() == old(self).spec_auto_restarts()
            },
            old(self).spec_generation() == generation && old(self).spec_phase()
                != HostPhase::Stopped ==> {
                &&& final(self).spec_phase() == HostPhase::Stopped
                &&& if old(self).spec_auto_restarts() < old(self).spec_max_auto_restarts() {
                    &&& final(self).spec_auto_restarts() == old(self).spec_auto_restarts() + 1
                    &&& r == RestartDecision::Restart {
                        attempt: final(self).spec_auto_restarts(),
                        limit: old(self).spec_max_auto_restarts(),
                    }
                } else {
                    &&& final(self).spec_auto_restarts() == old(self).spec_auto_restarts()
                    &&& r == RestartDecision::Fail
                }
            },
    {
        if !self.is_current(generation) {
            return RestartDecision::Ignore;
        }
        match self.phase {
            HostPhase::Starting | HostPhase::Ready => {},
            HostPhase::Stopped => {
                return RestartDecision::Ignore;
            },
        }
        self.phase = HostPhase::Stopped;
        if self.auto_restarts < self.max_auto_restarts {
            self.auto_restarts = self.auto_restarts + 1;
            RestartDecision::Restart { attempt: self.auto_restarts, limit: self.max_auto_restarts }
        } else {
            RestartDecision::Fail
        }
    }
}


/// The restart counter never exceeds the budget the lifecycle was made with: every
/// lifecycle from `new` is well formed, each operation keeps it so and keeps the
/// budget, and a well-formed lifecycle has counted at most its budget of restarts.
pub proof fn law_restart_count_within_budget(s: HostLifecycle)
    requires
        s.wf(),
    ensures
        s.spec_auto_restarts() <= s.spec_max_auto_restarts(),
{
}

/// A started host is current under the generation it was given, and every generation
/// handed out before it is no longer current.
pub proof fn law_start_gives_fresh_generation(s: HostLifecycle, earlier: u64)
    requires
        s.spec_generation() < u64::MAX,
        earlier <= s.spec_generation(),
    ensures
        s.started().spec_generation() == s.spec_generation() + 1,
        s.started().spec_generation() != earlier,
        s.started().spec_phase() == HostPhase::Starting,
{
}

/// After `invalidate`, no generation handed out before it is current: a Ready message of
/// such a generation is refused and an exit of it is ignored.
pub proof fn law_invalidate_ignores_stale(s: HostLifecycle, stale: u64)
    requires
        s.spec_generation() < u64::MAX,
        stale <= s.spec_generation(),
    ensures
        s.invalidated().spec_generation() != stale,
        s.invalidated().after_exit(stale).0 == RestartDecision::Ignore,
        s.invalidated().after_exit(stale).1 == s.invalidated(),
        s.invalidated().spec_phase() == HostPhase::Stopped,
{
}

/// An exit never hands out a restart beyond the budget: every `Restart` decision carries
/// an attempt number between 1 and the limit, and the limit is the configured budget.
pub proof fn law_restart_within_budget(s: HostLifecycle, generation: u64)
    requires
        s.wf(),
    ensures
        s.after_exit(generation).1.wf(),
        s.after_exit(generation).0 matches RestartDecision::Restart { attempt, limit } ==> 1
            <= attempt <= limit && limit == s.spec_max_auto_restarts() && attempt
            == s.spec_auto_restarts() + 1,
        s.spec_auto_restarts() == s.spec_max_auto_restarts() ==> !(s.after_exit(
            generation,
        ).0 is Restart),
{
}

/// Once the budget is spent, a further exit of the running generation fails; a reset
/// followed by a new start gives the first attempt again.
pub proof fn law_reset_restores_budget(s: HostLifecycle)
    requires
        s.wf(),
        s.spec_generation() < u64::MAX,
        s.spec_max_auto_restarts() > 0,
    ensures
        s.restarts_reset().started().after_exit((s.spec_generation() + 1) as u64).0
            == (RestartDecision::Restart { attempt: 1, limit: s.spec_max_auto_restarts() }),
        s.spec_auto_restarts() == s.spec_max_auto_restarts() ==> s.started().after_exit(
            (s.spec_generation() + 1) as u64,
        ).0 == RestartDecision::Fail,
{
}

} // verus!
