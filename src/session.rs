//! The session supervisor's decisions: at most one live server process, a
//! generation counter that retires background tasks of superseded sessions,
//! crash detection by polling, and a bounded graceful stop.
//!
//! The supervisor holds no process: the caller performs each action that a
//! transition asks for (stop the old process, spawn, probe the exit status) and
//! reports what happened.
use vstd::prelude::*;

verus! {

/// Seconds a request waits for its response.
pub const REQUEST_TIMEOUT_SECONDS: u64 = 15;

/// Exit-status probes during a graceful stop before the process is killed.
pub const STOP_WAIT_ATTEMPTS: usize = 10;

/// Milliseconds between two exit-status probes during a graceful stop.
pub const STOP_WAIT_INTERVAL_MS: u64 = 50;

/// Milliseconds between two liveness probes of a running session.
pub const CRASH_POLL_INTERVAL_MS: u64 = 500;

/// Where the supervised session stands.
#[derive(PartialEq, Eq, Structural, Clone, Copy, Debug)]
pub enum Phase {
    /// No process.
    Stopped,
    /// A process runs; its handshake is in flight.
    Starting,
    /// The handshake succeeded; requests may be sent.
    Ready,
    /// The process is being shut down.
    Stopping,
}

/// What the exit-status probe of the process found.
#[derive(PartialEq, Eq, Structural, Clone, Copy, Debug)]
pub enum ExitProbe {
    /// Still running.
    Running,
    /// Exited, with its exit code where the platform gives one.
    Exited(Option<i32>),
    /// The probe itself failed.
    Unknown,
}

/// What `start` is to do first.
#[derive(PartialEq, Eq, Structural, Clone, Copy, Debug)]
pub enum StartStep {
    /// No process is live: spawn the new one.
    Spawn,
    /// A process is live: run the stop sequence on it, then spawn.
    StopFirst,
}

/// What a finished handshake leads to.
#[derive(PartialEq, Eq, Structural, Clone, Copy, Debug)]
pub enum HandshakeStep {
    /// Emit the "ready" event.
    Ready,
    /// Emit the "error" event; the process keeps running.
    Failed,
    /// The session was superseded: emit nothing.
    Stale,
}

/// What the liveness poller is to do after one probe.
#[derive(PartialEq, Eq, Structural, Clone, Copy, Debug)]
pub enum PollStep {
    /// Probe again after the poll interval.
    Continue,
    /// This poller's session is gone: end silently.
    Quit,
    /// The process died unasked: emit the "crashed" event and end.
    Crashed(Option<i32>),
}

/// What a graceful stop is to do after one probe.
#[derive(PartialEq, Eq, Structural, Clone, Copy, Debug)]
pub enum StopStep {
    /// The process has exited.
    Done,
    /// Wait one interval and probe again.
    WaitAgain,
    /// Kill the process.
    Kill,
}

/// Why a message cannot be sent.
#[derive(PartialEq, Eq, Structural, Clone, Copy, Debug)]
pub enum SendError {
    /// No session is installed.
    NotRunning,
}

/// The supervisor's state as the contracts see it.
pub struct SupervisorModel {
    pub generation: u64,
    pub phase: Phase,
}

/// The generation after one increment (it wraps, so it always changes).
pub open spec fn bump(g: u64) -> u64 {
    if g == u64::MAX {
        0
    } else {
        (g + 1) as u64
    }
}

/// A process is live in every phase but `Stopped`.
pub open spec fn has_process(m: SupervisorModel) -> bool {
    m.phase != Phase::Stopped
}

pub open spec fn begin_start_spec(m: SupervisorModel) -> (SupervisorModel, StartStep) {
    if has_process(m) {
        (SupervisorModel { generation: bump(m.generation), phase: Phase::Stopping }, StartStep::StopFirst)
    } else {
        (SupervisorModel { generation: bump(m.generation), phase: Phase::Stopped }, StartStep::Spawn)
    }
}

pub open spec fn begin_stop_spec(m: SupervisorModel) -> (SupervisorModel, bool) {
    if has_process(m) {
        (SupervisorModel { generation: bump(m.generation), phase: Phase::Stopping }, true)
    } else {
        (SupervisorModel { generation: bump(m.generation), phase: Phase::Stopped }, false)
    }
}

pub open spec fn finish_stop_spec(m: SupervisorModel) -> SupervisorModel {
    SupervisorModel { generation: m.generation, phase: Phase::Stopped }
}

pub open spec fn spawned_spec(m: SupervisorModel) -> (SupervisorModel, Option<u64>) {
    if has_process(m) {
        (m, None)
    } else {
        (SupervisorModel { generation: m.generation, phase: Phase::Starting }, Some(m.generation))
    }
}

pub open spec fn handshake_spec(m: SupervisorModel, captured: u64, ok: bool) -> (
    SupervisorModel,
    HandshakeStep,
) {
    if captured != m.generation || m.phase != Phase::Starting {
        (m, HandshakeStep::Stale)
    } else if ok {
        (SupervisorModel { generation: m.generation, phase: Phase::Ready }, HandshakeStep::Ready)
    } else {
        (m, HandshakeStep::Failed)
    }
}

pub open spec fn poll_spec(m: SupervisorModel, captured: u64, probe: ExitProbe) -> (
    SupervisorModel,
    PollStep,
) {
    if captured != m.generation || !has_process(m) || m.phase == Phase::Stopping {
        (m, PollStep::Quit)
    } else {
        match probe {
            ExitProbe::Running => (m, PollStep::Continue),
            ExitProbe::Exited(code) => (
                SupervisorModel { generation: m.generation, phase: Phase::Stopped },
                PollStep::Crashed(code),
            ),
            ExitProbe::Unknown => (
                SupervisorModel { generation: m.generation, phase: Phase::Stopped },
                PollStep::Crashed(None),
            ),
        }
    }
}

/// Messages may be sent while the installed session starts or is ready.
pub open spec fn can_send_spec(m: SupervisorModel) -> bool {
    m.phase == Phase::Starting || m.phase == Phase::Ready
}

/// The supervisor of the one session.
pub struct Supervisor {
    generation: u64,
    phase: Phase,
}

impl Supervisor {
    pub closed spec fn model(&self) -> SupervisorModel {
        SupervisorModel { generation: self.generation, phase: self.phase }
    }

    pub fn new() -> (r: Self)
        ensures
            r.model() == (SupervisorModel { generation: 0, phase: Phase::Stopped }),
    {
        Supervisor { generation: 0, phase: Phase::Stopped }
    }

    pub fn generation(&self) -> (r: u64)
        ensures
            r == self.model().generation,
    {
        self.generation
    }

    pub fn phase(&self) -> (r: Phase)
        ensures
            r == self.model().phase,
    {
        self.phase
    }

    fn bump_generation(&mut self)
        ensures
            final(self).generation == bump(old(self).generation),
            final(self).phase == old(self).phase,
    {
        self.generation = self.generation.wrapping_add(1);
    }

    /// `start`: retires the tasks of the current generation and says whether a
    /// live process must be stopped before the new one is spawned.
    pub fn begin_start(&mut self) -> (r: StartStep)
        ensures
            (final(self).model(), r) == begin_start_spec(old(self).model()),
    {
        self.bump_generation();
        if self.phase == Phase::Stopped {
            StartStep::Spawn
        } else {
            self.phase = Phase::Stopping;
            StartStep::StopFirst
        }
    }

    /// `stop`: retires the tasks of the current generation and says whether a
    /// live process is to be shut down.
    pub fn begin_stop(&mut self) -> (r: bool)
        ensures
            (final(self).model(), r) == begin_stop_spec(old(self).model()),
    {
        self.bump_generation();
        if self.phase == Phase::Stopped {
            false
        } else {
            self.phase = Phase::Stopping;
            true
        }
    }

    /// The stop sequence has ended (the process exited or was killed).
    pub fn finish_stop(&mut self)
        ensures
            final(self).model() == finish_stop_spec(old(self).model()),
    {
        self.phase = Phase::Stopped;
    }

    /// A new process was spawned. It is installed only where none is live;
    /// the result is the generation that its background tasks capture.
    pub fn spawned(&mut self) -> (r: Option<u64>)
        ensures
            (final(self).model(), r) == spawned_spec(old(self).model()),
    {
        if self.phase == Phase::Stopped {
            self.phase = Phase::Starting;
            Some(self.generation)
        } else {
            None
        }
    }

    /// The handshake task of generation `captured` has finished.
    pub fn handshake_finished(&mut self, captured: u64, ok: bool) -> (r: HandshakeStep)
        ensures
            (final(self).model(), r) == handshake_spec(old(self).model(), captured, ok),
    {
        if captured != self.generation || self.phase != Phase::Starting {
            HandshakeStep::Stale
        } else if ok {
            self.phase = Phase::Ready;
            HandshakeStep::Ready
        } else {
            HandshakeStep::Failed
        }
    }

    /// The liveness poller of generation `captured` has probed the process.
    pub fn poll(&mut self, captured: u64, probe: ExitProbe) -> (r: PollStep)
        ensures
            (final(self).model(), r) == poll_spec(old(self).model(), captured, probe),
    {
        if captured != self.generation || self.phase == Phase::Stopped || self.phase
            == Phase::Stopping {
            return PollStep::Quit;
        }
        match probe {
            ExitProbe::Running => PollStep::Continue,
            ExitProbe::Exited(code) => {
                self.phase = Phase::Stopped;
                PollStep::Crashed(code)
            },
            ExitProbe::Unknown => {
                self.phase = Phase::Stopped;
                PollStep::Crashed(None)
            },
        }
    }

    /// `send`: fails with `NotRunning` where no session is installed.
    pub fn check_send(&self) -> (r: Result<(), SendError>)
        ensures
            r is Ok <==> can_send_spec(self.model()),
            r is Err ==> r == Err::<(), SendError>(SendError::NotRunning),
    {
        if self.phase == Phase::Starting || self.phase == Phase::Ready {
            Ok(())
        } else {
            Err(SendError::NotRunning)
        }
    }
}

pub open spec fn stop_step_spec(attempt: nat, probe: ExitProbe) -> StopStep {
    match probe {
        ExitProbe::Exited(_) => StopStep::Done,
        ExitProbe::Unknown => StopStep::Kill,
        ExitProbe::Running => if attempt + 1 < STOP_WAIT_ATTEMPTS {
            StopStep::WaitAgain
        } else {
            StopStep::Kill
        },
    }
}

/// One step of the graceful stop, after probe number `attempt` (from 0): the
/// process is killed when the probe fails or after the last attempt.
pub fn stop_step(attempt: usize, probe: ExitProbe) -> (r: StopStep)
    ensures
        r == stop_step_spec(attempt as nat, probe),
{
    match probe {
        ExitProbe::Exited(_) => StopStep::Done,
        ExitProbe::Unknown => StopStep::Kill,
        ExitProbe::Running => if attempt < STOP_WAIT_ATTEMPTS - 1 {
            StopStep::WaitAgain
        } else {
            StopStep::Kill
        },
    }
}

/// A start or a stop retires every task that captured the generation before it.
pub proof fn lemma_start_stop_retire_tasks(m: SupervisorModel, probe: ExitProbe, ok: bool)
    ensures
        poll_spec(begin_start_spec(m).0, m.generation, probe).1 == PollStep::Quit,
        poll_spec(begin_stop_spec(m).0, m.generation, probe).1 == PollStep::Quit,
        handshake_spec(begin_start_spec(m).0, m.generation, ok).1 == HandshakeStep::Stale,
        handshake_spec(begin_stop_spec(m).0, m.generation, ok).1 == HandshakeStep::Stale,
{
}

/// Crash detection: where the process of the current session has exited, the
/// poller reports a crash with its exit code, the supervisor is left with no
/// session, and a later `send` fails with "not running".
pub proof fn lemma_crash_detected(m: SupervisorModel, code: Option<i32>)
    requires
        m.phase == Phase::Ready || m.phase == Phase::Starting,
    ensures
        poll_spec(m, m.generation, ExitProbe::Exited(code)).1 == PollStep::Crashed(code),
        poll_spec(m, m.generation, ExitProbe::Exited(code)).0.phase == Phase::Stopped,
        !can_send_spec(poll_spec(m, m.generation, ExitProbe::Exited(code)).0),
{
}

/// One live process at most: a second `start` while a process is live must
/// stop it first, and no new process is installed until that stop has ended;
/// once it has, the new one is.
pub proof fn lemma_second_start_stops_first(m: SupervisorModel)
    requires
        has_process(m),
    ensures
        begin_start_spec(m).1 == StartStep::StopFirst,
        spawned_spec(begin_start_spec(m).0).1 is None,
        spawned_spec(finish_stop_spec(begin_start_spec(m).0)).1 is Some,
{
}

/// Installing a process needs a supervisor with none live, and leaves it with one.
pub proof fn lemma_spawn_only_when_none_live(m: SupervisorModel)
    ensures
        spawned_spec(m).1 is Some <==> !has_process(m),
        has_process(spawned_spec(m).0),
{
}

/// A graceful stop probes at most `STOP_WAIT_ATTEMPTS` times before it kills.
pub proof fn lemma_stop_is_bounded(attempt: nat, probe: ExitProbe)
    requires
        attempt + 1 >= STOP_WAIT_ATTEMPTS,
    ensures
        stop_step_spec(attempt, probe) != StopStep::WaitAgain,
{
}

} // verus!
