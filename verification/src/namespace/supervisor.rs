//! What the supervisor does, in which order, and what it does when something
//! fails.

use super::config::{LaunchConfig, SandboxConfig, share, worker_share};
use super::control::{kind_of, payload_of};
use crate::sys::control::{ControlError, Kind, decode_error};
use crate::sys::process::WaitStatus;
use crate::sys::resource::{ResourceError, budget};
use crate::text::decimal;
use vstd::prelude::*;

verus! {

#[derive(Clone, Copy, Debug, PartialEq, Eq, Structural)]
pub struct ExitStatus {
    pub code: i32,
}

/// What the descriptors of one worker come to.
pub open spec fn worker_budget(config: LaunchConfig, index: int) -> int {
    budget(
        share(config.max_tcp_flows as int, config.workers as int, index),
        share(config.max_udp_flows as int, config.workers as int, index),
        share(config.max_udp_associations as int, config.workers as int, index),
    )
}

/// What the supervisor needs for itself: four descriptors for each worker, and
/// the headroom.
pub open spec fn supervisor_budget(workers: int) -> int {
    4 * workers + 32
}

/// The most of what the first `count` workers and the supervisor need.
pub open spec fn largest_budget(config: LaunchConfig, count: int) -> int
    decreases count,
{
    if count <= 0 {
        supervisor_budget(config.workers as int)
    } else {
        let before = largest_budget(config, count - 1);
        let here = worker_budget(config, count - 1);
        if here > before {
            here
        } else {
            before
        }
    }
}

/// The descriptors that one worker needs.
pub fn worker_descriptors(config: &LaunchConfig, index: usize) -> (result: Result<
    u64,
    ResourceError,
>)
    requires
        0 < config.workers,
    ensures
        match result {
            Ok(limit) => limit == worker_budget(*config, index as int),
            Err(error) => {
                &&& worker_budget(*config, index as int) > u64::MAX
                &&& error == ResourceError::BudgetOverflow
            },
        },
{
    crate::sys::resource::dataplane_nofile_limit(
        worker_share(config.max_tcp_flows, config.workers, index),
        worker_share(config.max_udp_flows, config.workers, index),
        worker_share(config.max_udp_associations, config.workers, index),
    )
}

/// The descriptors that an instance needs in any one process.
pub fn descriptor_budget(config: &LaunchConfig) -> (result: Result<u64, ResourceError>)
    requires
        config.fault() is None,
    ensures
        result is Ok,
        result->Ok_0 == largest_budget(*config, config.workers as int),
{
    let mut most: u64 = config.workers as u64 * 4 + 32;
    let mut i: usize = 0;
    while i < config.workers
        invariant
            config.fault() is None,
            i <= config.workers,
            most == largest_budget(*config, i as int),
        decreases config.workers - i,
    {
        proof {
            super::config::law_workers_get_enough(*config, i as int);
        }
        let limit: u64 = worker_descriptors(config, i)?;
        if limit > most {
            most = limit;
        }
        i = i + 1;
    }
    Ok(most)
}

/// Every process of an instance has the descriptors it needs.
pub proof fn law_budget_covers_everybody(config: LaunchConfig, count: int, index: int)
    requires
        0 <= index < count,
    ensures
        worker_budget(config, index) <= largest_budget(config, count),
        supervisor_budget(config.workers as int) <= largest_budget(config, count),
    decreases count,
{
    if count > 1 {
        if index < count - 1 {
            law_budget_covers_everybody(config, count - 1, index);
        } else {
            law_budget_covers_everybody(config, count - 1, 0);
        }
    } else {
        assert(largest_budget(config, 0) == supervisor_budget(config.workers as int));
    }
}

#[derive(Clone, Copy, Debug, PartialEq, Eq, Structural)]
pub enum Role {
    DataPlane,
    Namespace,
}

pub enum StartError {
    Control(ControlError),
    /// A data-plane process failed during startup, and says so in this text.
    Dataplane(Vec<u8>),
    /// The namespace init failed during startup, and says so in this text.
    Namespace(Vec<u8>),
    Unexpected(Kind),
}

/// Whether a child reports that it is ready.
pub fn expect_ready(packet: &[u8], role: Role) -> (result: Result<(), StartError>)
    ensures
        match result {
            Ok(_) => decode_error(packet@) is None && kind_of(packet@) == Kind::Ready,
            Err(StartError::Control(error)) => decode_error(packet@) == Some(error),
            Err(StartError::Dataplane(text)) => {
                &&& decode_error(packet@) is None
                &&& kind_of(packet@) == Kind::Error
                &&& role == Role::DataPlane
                &&& text@ == payload_of(packet@)
            },
            Err(StartError::Namespace(text)) => {
                &&& decode_error(packet@) is None
                &&& kind_of(packet@) == Kind::Error
                &&& role == Role::Namespace
                &&& text@ == payload_of(packet@)
            },
            Err(StartError::Unexpected(kind)) => {
                &&& decode_error(packet@) is None
                &&& kind == kind_of(packet@)
                &&& kind != Kind::Ready
                &&& kind != Kind::Error
            },
        },
{
    match super::control::expect(packet, Kind::Ready) {
        Ok(_) => Ok(()),
        Err(super::control::ExpectError::Control(error)) => Err(StartError::Control(error)),
        Err(super::control::ExpectError::Reported(text)) => match role {
            Role::Namespace => Err(StartError::Namespace(text)),
            Role::DataPlane => Err(StartError::Dataplane(text)),
        },
        Err(super::control::ExpectError::Unexpected(kind)) => Err(StartError::Unexpected(kind)),
    }
}

/// The stages of an instance, from the first process to the last. A stage with a
/// number is about that worker.
#[derive(Clone, Copy, Debug, PartialEq, Eq, Structural)]
pub enum Phase {
    SpawnWorker(usize),
    /// The credentials are forgotten before any process sees the namespace.
    ForgetCredentials,
    SpawnNamespace,
    MapWorker(usize),
    MapNamespace,
    ReleaseWorker(usize),
    ReleaseNamespace,
    AwaitNamespace,
    AwaitWorker(usize),
    RecordChildren,
    SendExec,
    AwaitTarget,
    RecordTarget,
    Supervise,
    RecordExit,
    Done,
}

impl Phase {
    /// Whether the stage is one of an instance with so many workers.
    pub open spec fn wf(self, workers: usize) -> bool {
        match self {
            Phase::SpawnWorker(i) => i < workers,
            Phase::MapWorker(i) => i < workers,
            Phase::ReleaseWorker(i) => i < workers,
            Phase::AwaitWorker(i) => i < workers,
            _ => true,
        }
    }

    /// How far an instance has come.
    pub open spec fn rank(self, workers: usize) -> int {
        let n = workers as int;
        match self {
            Phase::SpawnWorker(i) => i as int,
            Phase::ForgetCredentials => n,
            Phase::SpawnNamespace => n + 1,
            Phase::MapWorker(i) => n + 2 + i,
            Phase::MapNamespace => 2 * n + 2,
            Phase::ReleaseWorker(i) => 2 * n + 3 + i,
            Phase::ReleaseNamespace => 3 * n + 3,
            Phase::AwaitNamespace => 3 * n + 4,
            Phase::AwaitWorker(i) => 3 * n + 5 + i,
            Phase::RecordChildren => 4 * n + 5,
            Phase::SendExec => 4 * n + 6,
            Phase::AwaitTarget => 4 * n + 7,
            Phase::RecordTarget => 4 * n + 8,
            Phase::Supervise => 4 * n + 9,
            Phase::RecordExit => 4 * n + 10,
            Phase::Done => 4 * n + 11,
        }
    }

    /// The first stage.
    #[must_use]
    pub fn first() -> (phase: Phase)
        ensures
            phase == Phase::SpawnWorker(0),
    {
        Phase::SpawnWorker(0)
    }

    /// The stage after this one.
    #[must_use]
    pub fn next(self, workers: usize) -> (next: Phase)
        requires
            0 < workers,
            self.wf(workers),
        ensures
            next.wf(workers),
            self != Phase::Done ==> next.rank(workers) == self.rank(workers) + 1,
            self == Phase::Done ==> next == Phase::Done,
    {
        match self {
            Phase::SpawnWorker(i) => if i + 1 < workers {
                Phase::SpawnWorker(i + 1)
            } else {
                Phase::ForgetCredentials
            },
            Phase::ForgetCredentials => Phase::SpawnNamespace,
            Phase::SpawnNamespace => Phase::MapWorker(0),
            Phase::MapWorker(i) => if i + 1 < workers {
                Phase::MapWorker(i + 1)
            } else {
                Phase::MapNamespace
            },
            Phase::MapNamespace => Phase::ReleaseWorker(0),
            Phase::ReleaseWorker(i) => if i + 1 < workers {
                Phase::ReleaseWorker(i + 1)
            } else {
                Phase::ReleaseNamespace
            },
            Phase::ReleaseNamespace => Phase::AwaitNamespace,
            Phase::AwaitNamespace => Phase::AwaitWorker(0),
            Phase::AwaitWorker(i) => if i + 1 < workers {
                Phase::AwaitWorker(i + 1)
            } else {
                Phase::RecordChildren
            },
            Phase::RecordChildren => Phase::SendExec,
            Phase::SendExec => Phase::AwaitTarget,
            Phase::AwaitTarget => Phase::RecordTarget,
            Phase::RecordTarget => Phase::Supervise,
            Phase::Supervise => Phase::RecordExit,
            Phase::RecordExit => Phase::Done,
            Phase::Done => Phase::Done,
        }
    }

    /// Which processes must be killed if this stage fails.
    #[must_use]
    pub fn cleanup(self) -> (cleanup: Cleanup)
        ensures
            cleanup == self.owed(),
    {
        match self {
            Phase::SpawnWorker(_) | Phase::ForgetCredentials | Phase::SpawnNamespace =>
                Cleanup::Workers,
            Phase::RecordExit | Phase::Done => Cleanup::Nothing,
            _ => Cleanup::Everybody,
        }
    }

    pub open spec fn owed(self) -> Cleanup {
        match self {
            Phase::SpawnWorker(_) | Phase::ForgetCredentials | Phase::SpawnNamespace =>
                Cleanup::Workers,
            Phase::RecordExit | Phase::Done => Cleanup::Nothing,
            _ => Cleanup::Everybody,
        }
    }
}

/// What is left to kill.
#[derive(Clone, Copy, Debug, PartialEq, Eq, Structural)]
pub enum Cleanup {
    /// The workers that were started so far.
    Workers,
    /// The workers and the namespace.
    Everybody,
    /// Nobody runs any more.
    Nothing,
}

/// The stages have one order: of two stages of the same rank there is only one.
/// So the command is started after the namespace and every worker were ready,
/// no process is released before all are mapped, and the namespace is started
/// after the credentials were forgotten.
pub proof fn law_startup_has_one_order(workers: usize, a: Phase, b: Phase, i: usize)
    requires
        0 < workers,
        a.wf(workers),
        b.wf(workers),
        i < workers,
    ensures
        a.rank(workers) == b.rank(workers) ==> a == b,
        Phase::AwaitWorker(i).rank(workers) < Phase::SendExec.rank(workers),
        Phase::AwaitNamespace.rank(workers) < Phase::SendExec.rank(workers),
        Phase::MapWorker(i).rank(workers) < Phase::ReleaseWorker(0).rank(workers),
        Phase::MapNamespace.rank(workers) < Phase::ReleaseWorker(0).rank(workers),
        Phase::ForgetCredentials.rank(workers) < Phase::SpawnNamespace.rank(workers),
        Phase::SpawnWorker(i).rank(workers) < Phase::ForgetCredentials.rank(workers),
{
}

/// While a process may run, a failure kills it: from the first stage on the
/// workers, from the start of the namespace on the namespace too.
pub proof fn law_failure_leaves_nobody(workers: usize, phase: Phase)
    requires
        0 < workers,
        phase.wf(workers),
    ensures
        phase.rank(workers) < Phase::RecordExit.rank(workers) ==> phase.owed()
            != Cleanup::Nothing,
        Phase::SpawnNamespace.rank(workers) < phase.rank(workers)
            < Phase::RecordExit.rank(workers) ==> phase.owed() == Cleanup::Everybody,
{
}

/// One step of killing.
#[derive(Clone, Copy, Debug, PartialEq, Eq, Structural)]
pub enum KillStep {
    KillWorker(usize),
    KillNamespace,
    WaitWorker(usize),
    WaitNamespace,
}

/// Everybody is killed before anybody is waited for, the workers first.
pub open spec fn kill_order(workers: int, namespace: bool) -> Seq<KillStep> {
    Seq::new(workers as nat, |i: int| KillStep::KillWorker(i as usize)) + (if namespace {
        seq![KillStep::KillNamespace]
    } else {
        Seq::empty()
    }) + Seq::new(workers as nat, |i: int| KillStep::WaitWorker(i as usize)) + (if namespace {
        seq![KillStep::WaitNamespace]
    } else {
        Seq::empty()
    })
}

/// How the first `workers` workers, and the namespace if it runs, are killed.
#[must_use]
pub fn kill_plan(workers: usize, namespace: bool) -> (steps: Vec<KillStep>)
    ensures
        steps@ == kill_order(workers as int, namespace),
{
    let mut steps: Vec<KillStep> = Vec::new();
    let mut i: usize = 0;
    while i < workers
        invariant
            i <= workers,
            steps@ == Seq::new(i as nat, |j: int| KillStep::KillWorker(j as usize)),
        decreases workers - i,
    {
        steps.push(KillStep::KillWorker(i));
        i = i + 1;
        assert(steps@ =~= Seq::new(i as nat, |j: int| KillStep::KillWorker(j as usize)));
    }
    if namespace {
        steps.push(KillStep::KillNamespace);
    }
    let ghost killed = steps@;
    let mut n: usize = 0;
    assert(steps@ =~= killed + Seq::new(0, |j: int| KillStep::WaitWorker(j as usize)));
    while n < workers
        invariant
            n <= workers,
            steps@ == killed + Seq::new(n as nat, |j: int| KillStep::WaitWorker(j as usize)),
        decreases workers - n,
    {
        steps.push(KillStep::WaitWorker(n));
        n = n + 1;
        assert(steps@ =~= killed + Seq::new(n as nat, |j: int| KillStep::WaitWorker(j as usize)));
    }
    if namespace {
        steps.push(KillStep::WaitNamespace);
    }
    assert(steps@ =~= kill_order(workers as int, namespace));
    steps
}

/// The steps of a data-plane process before it serves its TAP queue.
#[derive(Clone, Copy, Debug, PartialEq, Eq, Structural)]
pub enum WorkerStep {
    DieWithParent,
    AwaitMaps,
    ReceiveTap,
    LimitDescriptors,
    DisableCoreDumps,
    IsolateFilesystem,
    DropCapabilities,
    NoNewPrivileges,
    InstallFilter,
    SendReady,
    Serve,
}

pub open spec fn worker_order(sandbox: SandboxConfig) -> Seq<WorkerStep> {
    if sandbox == SandboxConfig::On {
        seq![
            WorkerStep::DieWithParent,
            WorkerStep::AwaitMaps,
            WorkerStep::ReceiveTap,
            WorkerStep::LimitDescriptors,
            WorkerStep::DisableCoreDumps,
            WorkerStep::IsolateFilesystem,
            WorkerStep::DropCapabilities,
            WorkerStep::NoNewPrivileges,
            WorkerStep::InstallFilter,
            WorkerStep::SendReady,
            WorkerStep::Serve,
        ]
    } else {
        seq![
            WorkerStep::DieWithParent,
            WorkerStep::AwaitMaps,
            WorkerStep::ReceiveTap,
            WorkerStep::LimitDescriptors,
            WorkerStep::DropCapabilities,
            WorkerStep::NoNewPrivileges,
            WorkerStep::SendReady,
            WorkerStep::Serve,
        ]
    }
}

/// What a data-plane process does, in this order.
#[must_use]
pub fn worker_steps(sandbox: SandboxConfig) -> (steps: Vec<WorkerStep>)
    ensures
        steps@ == worker_order(sandbox),
{
    let mut steps: Vec<WorkerStep> = vec![
        WorkerStep::DieWithParent,
        WorkerStep::AwaitMaps,
        WorkerStep::ReceiveTap,
        WorkerStep::LimitDescriptors,
    ];
    if sandbox.enabled() {
        steps.push(WorkerStep::DisableCoreDumps);
        steps.push(WorkerStep::IsolateFilesystem);
    }
    steps.push(WorkerStep::DropCapabilities);
    steps.push(WorkerStep::NoNewPrivileges);
    if sandbox.enabled() {
        steps.push(WorkerStep::InstallFilter);
    }
    steps.push(WorkerStep::SendReady);
    steps.push(WorkerStep::Serve);
    assert(steps@ =~= worker_order(sandbox));
    steps
}

/// Before a data-plane process reports that it is ready, it has dropped its
/// capabilities and can gain no privileges; in the sandbox its core dumps are
/// off, its file system is empty and its system calls are filtered, and the
/// filter comes after the privileges were given up.
pub proof fn law_worker_is_confined_before_ready(sandbox: SandboxConfig)
    ensures
        ({
            let steps = worker_order(sandbox);
            let ready = steps.index_of(WorkerStep::SendReady);
            &&& steps.contains(WorkerStep::SendReady)
            &&& steps.take(ready).contains(WorkerStep::DropCapabilities)
            &&& steps.take(ready).contains(WorkerStep::NoNewPrivileges)
            &&& sandbox == SandboxConfig::On ==> {
                &&& steps.take(ready).contains(WorkerStep::DisableCoreDumps)
                &&& steps.take(ready).contains(WorkerStep::IsolateFilesystem)
                &&& steps.take(ready).contains(WorkerStep::InstallFilter)
                &&& steps.take(steps.index_of(WorkerStep::InstallFilter)).contains(
                    WorkerStep::NoNewPrivileges,
                )
            }
        }),
{
    let steps = worker_order(sandbox);
    if sandbox == SandboxConfig::On {
        assert(steps[9] == WorkerStep::SendReady);
        assert(steps.index_of(WorkerStep::SendReady) == 9);
        let before = steps.take(9);
        assert(before[4] == WorkerStep::DisableCoreDumps);
        assert(before[5] == WorkerStep::IsolateFilesystem);
        assert(before[6] == WorkerStep::DropCapabilities);
        assert(before[7] == WorkerStep::NoNewPrivileges);
        assert(before[8] == WorkerStep::InstallFilter);
        assert(steps[8] == WorkerStep::InstallFilter);
        assert(steps.index_of(WorkerStep::InstallFilter) == 8);
        assert(steps.take(8)[7] == WorkerStep::NoNewPrivileges);
    } else {
        assert(steps[6] == WorkerStep::SendReady);
        assert(steps.index_of(WorkerStep::SendReady) == 6);
        let before = steps.take(6);
        assert(before[4] == WorkerStep::DropCapabilities);
        assert(before[5] == WorkerStep::NoNewPrivileges);
    }
}

/// The steps of the namespace init before it watches over the command.
#[derive(Clone, Copy, Debug, PartialEq, Eq, Structural)]
pub enum NamespaceStep {
    DieWithParent,
    AwaitMaps,
    MountProc,
    BindResolver,
    /// Opens a TAP queue for each worker.
    CreateTaps { multi_queue: bool },
    ConfigureNetwork,
    SendTaps,
    SendReady,
    AwaitExec,
    StartCommand,
    SendTarget,
    Watch,
}

pub open spec fn namespace_order(workers: usize, resolver: bool) -> Seq<NamespaceStep> {
    seq![
        NamespaceStep::DieWithParent,
        NamespaceStep::AwaitMaps,
        NamespaceStep::MountProc,
    ] + (if resolver {
        seq![NamespaceStep::BindResolver]
    } else {
        Seq::empty()
    }) + seq![
        NamespaceStep::CreateTaps { multi_queue: workers > 1 },
        NamespaceStep::ConfigureNetwork,
        NamespaceStep::SendTaps,
        NamespaceStep::SendReady,
        NamespaceStep::AwaitExec,
        NamespaceStep::StartCommand,
        NamespaceStep::SendTarget,
        NamespaceStep::Watch,
    ]
}

/// What the namespace init does, in this order.
#[must_use]
pub fn namespace_steps(workers: usize, resolver: bool) -> (steps: Vec<NamespaceStep>)
    ensures
        steps@ == namespace_order(workers, resolver),
{
    let mut steps: Vec<NamespaceStep> = vec![
        NamespaceStep::DieWithParent,
        NamespaceStep::AwaitMaps,
        NamespaceStep::MountProc,
    ];
    if resolver {
        steps.push(NamespaceStep::BindResolver);
    }
    steps.push(NamespaceStep::CreateTaps { multi_queue: workers > 1 });
    steps.push(NamespaceStep::ConfigureNetwork);
    steps.push(NamespaceStep::SendTaps);
    steps.push(NamespaceStep::SendReady);
    steps.push(NamespaceStep::AwaitExec);
    steps.push(NamespaceStep::StartCommand);
    steps.push(NamespaceStep::SendTarget);
    steps.push(NamespaceStep::Watch);
    assert(steps@ =~= namespace_order(workers, resolver));
    steps
}

/// The signal for a changed child.
pub const SIGCHLD: i32 = 17;
pub const SIGTERM: i32 = 15;

/// The signal that is passed on to the command: any but that of a changed child.
#[must_use]
pub fn forwarded_signal(signal: i32) -> (forwarded: Option<i32>)
    ensures
        forwarded == if signal == SIGCHLD {
            None
        } else {
            Some(signal)
        },
{
    if signal == SIGCHLD {
        None
    } else {
        Some(signal)
    }
}

/// What came of reading a control channel.
#[derive(Clone, Copy, Debug, PartialEq, Eq)]
pub enum ControlRead<'a> {
    Message { kind: Kind, payload: &'a [u8] },
    WouldBlock,
    Closed,
    Failed,
}

/// What the namespace init does about its control channel.
#[derive(Clone, Copy, Debug, PartialEq, Eq, Structural)]
pub enum WatchAction {
    Nothing,
    /// The command is asked to end.
    Terminate,
    Fail,
}

#[must_use]
pub fn watch_control(read: ControlRead<'_>) -> (action: WatchAction)
    ensures
        action == match read {
            ControlRead::Message { kind, .. } => if kind == Kind::Shutdown {
                WatchAction::Terminate
            } else {
                WatchAction::Nothing
            },
            ControlRead::WouldBlock => WatchAction::Nothing,
            ControlRead::Closed => WatchAction::Terminate,
            ControlRead::Failed => WatchAction::Fail,
        },
{
    match read {
        ControlRead::Message { kind, .. } => if kind == Kind::Shutdown {
            WatchAction::Terminate
        } else {
            WatchAction::Nothing
        },
        ControlRead::WouldBlock => WatchAction::Nothing,
        ControlRead::Closed => WatchAction::Terminate,
        ControlRead::Failed => WatchAction::Fail,
    }
}

/// What the namespace init does after it asked for a changed child.
#[derive(Clone, Copy, Debug, PartialEq, Eq, Structural)]
pub enum ReapStep {
    /// It asks again.
    Again,
    /// It sleeps.
    Sleep,
    /// It reports this code: the command and all its children are gone.
    Finish(i32),
}

/// The exit code of the command, if `status` says that it ended: that of the
/// command itself, or 128 and the signal.
pub open spec fn command_code(status: WaitStatus) -> Option<int> {
    match status {
        WaitStatus::Exited(code) => Some(code as int),
        WaitStatus::Signaled(signal) => Some(128 + signal),
        _ => None,
    }
}

/// Takes note of a changed child. The command's own end is remembered until no
/// child is left.
pub fn reap(
    main_status: &mut Option<i32>,
    target: i32,
    child: Option<(i32, WaitStatus)>,
) -> (step: ReapStep)
    requires
        child matches Some((_, WaitStatus::Signaled(signal))) ==> 0 <= signal <= 0x7f,
    ensures
        match child {
            None => {
                &&& *final(main_status) == *old(main_status)
                &&& step == match *old(main_status) {
                    Some(code) => ReapStep::Finish(code),
                    None => ReapStep::Sleep,
                }
            },
            Some((pid, status)) => if status == WaitStatus::NoChildren {
                &&& *final(main_status) == *old(main_status)
                &&& step == match *old(main_status) {
                    Some(code) => ReapStep::Finish(code),
                    None => ReapStep::Sleep,
                }
            } else if pid == -1 && status == WaitStatus::StillRunning {
                *final(main_status) == *old(main_status) && step == ReapStep::Sleep
            } else {
                &&& step == ReapStep::Again
                &&& if pid == target && command_code(status) is Some {
                    *final(main_status) == Some(command_code(status)->0 as i32)
                } else {
                    *final(main_status) == *old(main_status)
                }
            },
        },
{
    match child {
        None | Some((_, WaitStatus::NoChildren)) => match *main_status {
            Some(code) => ReapStep::Finish(code),
            None => ReapStep::Sleep,
        },
        Some((pid, WaitStatus::StillRunning)) => if pid == -1 {
            ReapStep::Sleep
        } else {
            ReapStep::Again
        },
        Some((pid, WaitStatus::Exited(code))) => {
            if pid == target {
                *main_status = Some(code);
            }
            ReapStep::Again
        },
        Some((pid, WaitStatus::Signaled(signal))) => {
            if pid == target {
                *main_status = Some(128 + signal);
            }
            ReapStep::Again
        },
    }
}

/// How an instance ends.
pub enum Ending {
    /// The command ended with this code.
    Exited(i32),
    /// The namespace reported an exit code that is none.
    InvalidExit,
    /// The namespace reports a failure, in this text.
    NamespaceReported(Vec<u8>),
    /// The control channel of the namespace is closed.
    ControlClosed,
    /// The control channel cannot be read.
    ControlFailed,
    /// A worker ended before the command.
    WorkerGone(usize),
    /// The namespace ended without a word.
    NamespaceGone,
}

/// What the supervisor makes of the control channel of the namespace: nothing,
/// or the end.
#[must_use]
pub fn supervise_control(read: ControlRead<'_>) -> (ending: Option<Ending>)
    ensures
        match read {
            ControlRead::Message { kind, payload } => if kind == Kind::Exit {
                if payload@.len() == 4 {
                    ending == Some(Ending::Exited(crate::bytes::le32(payload@, 0) as i32))
                } else {
                    ending == Some(Ending::InvalidExit)
                }
            } else if kind == Kind::Error {
                ending matches Some(Ending::NamespaceReported(text)) && text@ == payload@
            } else {
                ending is None
            },
            ControlRead::WouldBlock => ending is None,
            ControlRead::Closed => ending == Some(Ending::ControlClosed),
            ControlRead::Failed => ending == Some(Ending::ControlFailed),
        },
{
    match read {
        ControlRead::Message { kind, payload } => {
            if kind == Kind::Exit {
                match super::control::read_number(payload) {
                    Some(code) => Some(Ending::Exited(code)),
                    None => Some(Ending::InvalidExit),
                }
            } else if kind == Kind::Error {
                let mut text: Vec<u8> = Vec::new();
                crate::text::push_all(&mut text, payload);
                assert(text@ =~= payload@);
                Some(Ending::NamespaceReported(text))
            } else {
                None
            }
        },
        ControlRead::WouldBlock => None,
        ControlRead::Closed => Some(Ending::ControlClosed),
        ControlRead::Failed => Some(Ending::ControlFailed),
    }
}

/// The first worker that does not run any more.
pub open spec fn first_gone(workers: Seq<WaitStatus>, at: int) -> int
    decreases workers.len() - at,
{
    if 0 <= at < workers.len() && workers[at] == WaitStatus::StillRunning {
        first_gone(workers, at + 1)
    } else {
        at
    }
}

/// What the supervisor makes of the processes: the end if one of them is gone,
/// the workers first.
#[must_use]
pub fn supervise_processes(workers: &[WaitStatus], namespace: WaitStatus) -> (ending: Option<
    Ending,
>)
    ensures
        ending == {
            let gone = first_gone(workers@, 0);
            if gone < workers@.len() {
                Some(Ending::WorkerGone(gone as usize))
            } else if namespace != WaitStatus::StillRunning {
                Some(Ending::NamespaceGone)
            } else {
                None
            }
        },
{
    let mut i: usize = 0;
    while i < workers.len()
        invariant
            i <= workers@.len(),
            first_gone(workers@, 0) == first_gone(workers@, i as int),
        decreases workers@.len() - i,
    {
        if workers[i] != WaitStatus::StillRunning {
            return Some(Ending::WorkerGone(i));
        }
        i = i + 1;
    }
    if namespace != WaitStatus::StillRunning {
        return Some(Ending::NamespaceGone);
    }
    None
}

/// One step of ending an instance.
#[derive(Clone, Copy, Debug, PartialEq, Eq, Structural)]
pub enum EndStep {
    ShutDownWorkers,
    TerminateNamespace,
    WaitNamespace,
    WaitWorkers,
}

pub open spec fn end_order(ending: Ending) -> Seq<EndStep> {
    match ending {
        Ending::Exited(_) => seq![
            EndStep::ShutDownWorkers,
            EndStep::WaitNamespace,
            EndStep::WaitWorkers,
        ],
        Ending::WorkerGone(_) => seq![
            EndStep::ShutDownWorkers,
            EndStep::TerminateNamespace,
            EndStep::WaitNamespace,
            EndStep::WaitWorkers,
        ],
        Ending::NamespaceGone => seq![EndStep::ShutDownWorkers, EndStep::WaitWorkers],
        _ => Seq::empty(),
    }
}

/// What is done at the end, in this order. Where it is nothing, whoever still
/// runs is killed.
#[must_use]
pub fn end_steps(ending: &Ending) -> (steps: Vec<EndStep>)
    ensures
        steps@ == end_order(*ending),
{
    let steps: Vec<EndStep> = match ending {
        Ending::Exited(_) => vec![
            EndStep::ShutDownWorkers,
            EndStep::WaitNamespace,
            EndStep::WaitWorkers,
        ],
        Ending::WorkerGone(_) => vec![
            EndStep::ShutDownWorkers,
            EndStep::TerminateNamespace,
            EndStep::WaitNamespace,
            EndStep::WaitWorkers,
        ],
        Ending::NamespaceGone => vec![EndStep::ShutDownWorkers, EndStep::WaitWorkers],
        _ => Vec::new(),
    };
    assert(steps@ =~= end_order(*ending));
    steps
}

/// An instance that succeeds has waited for everybody, and nobody is waited for
/// who was not asked to end or has ended.
pub proof fn law_success_waits_for_everybody(code: i32)
    ensures
        ({
            let steps = end_order(Ending::Exited(code));
            &&& steps.contains(EndStep::WaitNamespace)
            &&& steps.contains(EndStep::WaitWorkers)
            &&& steps[0] == EndStep::ShutDownWorkers
        }),
{
    let steps = end_order(Ending::Exited(code));
    assert(steps[1] == EndStep::WaitNamespace);
    assert(steps[2] == EndStep::WaitWorkers);
}

/// The first octets of the number of a request for counters.
pub const METRICS_REQUEST_BASE: u64 = 0x6d65_7472_6963_7300;

/// The number of the request for the counters of a worker.
#[must_use]
pub fn metrics_request_id(worker_index: usize) -> (id: u64)
    requires
        METRICS_REQUEST_BASE + worker_index <= u64::MAX,
    ensures
        id == METRICS_REQUEST_BASE + worker_index,
{
    METRICS_REQUEST_BASE + worker_index as u64
}

/// What is done with what a worker sent while its counters are awaited.
#[derive(Clone, Copy, Debug, PartialEq, Eq, Structural)]
pub enum MetricsStep {
    /// The payload holds the counters.
    Take,
    /// The payload says what went wrong.
    Report,
    /// It is read again at once.
    Again,
    /// It is read again after a pause.
    Wait,
    TimedOut,
    Fail,
}

#[must_use]
pub fn metrics_step(
    read: ControlRead<'_>,
    request_id: u64,
    answered_id: u64,
    timed_out: bool,
) -> (step: MetricsStep)
    ensures
        step == match read {
            ControlRead::Message { kind, .. } => if kind == Kind::Status && answered_id
                == request_id {
                MetricsStep::Take
            } else if kind == Kind::Error {
                MetricsStep::Report
            } else {
                MetricsStep::Again
            },
            ControlRead::WouldBlock => if timed_out {
                MetricsStep::TimedOut
            } else {
                MetricsStep::Wait
            },
            _ => MetricsStep::Fail,
        },
{
    match read {
        ControlRead::Message { kind, .. } => if kind == Kind::Status && answered_id == request_id {
            MetricsStep::Take
        } else if kind == Kind::Error {
            MetricsStep::Report
        } else {
            MetricsStep::Again
        },
        ControlRead::WouldBlock => if timed_out {
            MetricsStep::TimedOut
        } else {
            MetricsStep::Wait
        },
        _ => MetricsStep::Fail,
    }
}

/// A status request, if `packet` is one: its number, which the answer repeats.
pub fn status_request(packet: &[u8]) -> (result: Result<Option<u64>, ControlError>)
    ensures
        match result {
            Ok(request) => {
                &&& decode_error(packet@) is None
                &&& request == if kind_of(packet@) == Kind::Status {
                    Some(crate::bytes::le64(packet@, 12))
                } else {
                    None
                }
            },
            Err(error) => decode_error(packet@) == Some(error),
        },
{
    match crate::sys::control::decode(packet) {
        Ok(message) => {
            if message.kind == Kind::Status {
                Ok(Some(message.request_id))
            } else {
                Ok(None)
            }
        },
        Err(error) => Err(error),
    }
}

/// A map of one identity: `id` outside is root inside.
pub open spec fn identity_map(id: u32) -> Seq<u8> {
    seq![48u8, 32u8] + decimal(id as nat) + seq![32u8, 49u8, 10u8]
}

/// The text of a user or group map.
#[must_use]
pub fn identity_map_text(id: u32) -> (text: Vec<u8>)
    ensures
        text@ == identity_map(id),
{
    let mut text: Vec<u8> = vec![48, 32];
    assert(text@ =~= seq![48u8, 32u8]);
    crate::text::push_decimal(&mut text, id as u64);
    let end = [32, 49, 10];
    assert(end@ =~= seq![32u8, 49u8, 10u8]);
    crate::text::push_all(&mut text, &end);
    assert(text@ =~= identity_map(id));
    text
}

/// Whether an argument holds a zero octet, so that it cannot be passed on.
pub open spec fn holds_nul(argument: Seq<u8>) -> bool {
    argument.contains(0u8)
}

/// Whether the command can be started: every argument is free of zero octets.
#[must_use]
pub fn command_is_passable(command: &Vec<Vec<u8>>) -> (passable: bool)
    ensures
        passable == forall|i: int| 0 <= i < command@.len() ==> !holds_nul(#[trigger] command@[i]@),
{
    let mut i: usize = 0;
    while i < command.len()
        invariant
            i <= command@.len(),
            forall|j: int| 0 <= j < i ==> !holds_nul(#[trigger] command@[j]@),
        decreases command@.len() - i,
    {
        let argument = &command[i];
        let mut at: usize = 0;
        while at < argument.len()
            invariant
                i < command@.len(),
                argument == command@[i as int],
                at <= argument@.len(),
                forall|j: int| 0 <= j < at ==> argument@[j] != 0,
            decreases argument@.len() - at,
        {
            if argument[at] == 0 {
                assert(argument@[at as int] == 0);
                assert(holds_nul(command@[i as int]@));
                return false;
            }
            at = at + 1;
        }
        i = i + 1;
    }
    true
}

/// Everybody that runs is killed once and waited for once: worker `i` in its
/// turn, and the namespace exactly when it was started.
pub proof fn law_everybody_is_killed_and_waited_for(workers: usize, namespace: bool, i: usize)
    requires
        i < workers,
    ensures
        ({
            let steps = kill_order(workers as int, namespace);
            let one = if namespace {
                1int
            } else {
                0
            };
            &&& steps.len() == 2 * (workers + one)
            &&& steps[i as int] == KillStep::KillWorker(i)
            &&& steps[workers + one + i] == KillStep::WaitWorker(i)
            &&& namespace ==> steps[workers as int] == KillStep::KillNamespace
                && steps[2 * workers + 1] == KillStep::WaitNamespace
        }),
{
}

/// The supervisor needs four descriptors for each worker and 32 more.
pub proof fn law_supervisor_needs_four_for_each_worker(workers: int)
    ensures
        supervisor_budget(0) == 32,
        supervisor_budget(workers + 1) == supervisor_budget(workers) + 4,
{
}

/// A failure before the namespace runs leaves only workers to kill; after the
/// command has ended, nobody.
pub proof fn law_only_those_that_run_are_killed(workers: usize, phase: Phase)
    requires
        0 < workers,
        phase.wf(workers),
    ensures
        phase.rank(workers) <= workers + 1 <==> phase.owed() == Cleanup::Workers,
        phase.rank(workers) > 4 * workers + 9 <==> phase.owed() == Cleanup::Nothing,
{
}

/// The stages follow one another: the workers are started one after the other,
/// mapped, released and awaited in the same order, and the command is started
/// last of all.
pub proof fn law_stages_follow_one_another(workers: usize, i: usize)
    requires
        i < workers,
    ensures
        Phase::SpawnWorker(i).rank(workers) == i,
        Phase::MapWorker(i).rank(workers) == Phase::SpawnNamespace.rank(workers) + 1 + i,
        Phase::ReleaseWorker(i).rank(workers) == Phase::MapNamespace.rank(workers) + 1 + i,
        Phase::AwaitWorker(i).rank(workers) == Phase::AwaitNamespace.rank(workers) + 1 + i,
        Phase::ReleaseNamespace.rank(workers) < Phase::AwaitNamespace.rank(workers),
        Phase::RecordChildren.rank(workers) < Phase::SendExec.rank(workers),
        Phase::SendExec.rank(workers) < Phase::AwaitTarget.rank(workers),
        Phase::AwaitTarget.rank(workers) < Phase::RecordTarget.rank(workers),
        Phase::RecordTarget.rank(workers) < Phase::Supervise.rank(workers),
        Phase::Supervise.rank(workers) < Phase::RecordExit.rank(workers),
        Phase::RecordExit.rank(workers) < Phase::Done.rank(workers),
{
}

/// The namespace init mounts its process file system first, binds the resolver
/// file exactly when there is one, has its interfaces configured before it hands
/// them out, says that it is ready after that, and starts the command only when
/// told to. Several workers share the interface by queues.
pub proof fn law_namespace_is_set_up_before_the_command(workers: usize, resolver: bool)
    ensures
        ({
            let steps = namespace_order(workers, resolver);
            let shift = if resolver {
                1int
            } else {
                0
            };
            &&& steps.len() == 11 + shift
            &&& steps[0] == NamespaceStep::DieWithParent
            &&& steps[1] == NamespaceStep::AwaitMaps
            &&& steps[2] == NamespaceStep::MountProc
            &&& steps.contains(NamespaceStep::BindResolver) <==> resolver
            &&& resolver ==> steps[3] == NamespaceStep::BindResolver
            &&& steps[3 + shift] == NamespaceStep::CreateTaps { multi_queue: workers >= 2 }
            &&& steps[4 + shift] == NamespaceStep::ConfigureNetwork
            &&& steps[5 + shift] == NamespaceStep::SendTaps
            &&& steps[6 + shift] == NamespaceStep::SendReady
            &&& steps[7 + shift] == NamespaceStep::AwaitExec
            &&& steps[8 + shift] == NamespaceStep::StartCommand
            &&& steps[9 + shift] == NamespaceStep::SendTarget
            &&& steps[10 + shift] == NamespaceStep::Watch
        }),
{
    let steps = namespace_order(workers, resolver);
    if resolver {
        assert(steps[3] == NamespaceStep::BindResolver);
    }
}

/// A data-plane process dies with its parent, waits for its identity maps before
/// it takes its TAP queue, limits its descriptors, and serves only after it
/// reported ready. The sandbox adds three steps and changes no other.
pub proof fn law_worker_serves_last(sandbox: SandboxConfig)
    ensures
        ({
            let steps = worker_order(sandbox);
            &&& steps[0] == WorkerStep::DieWithParent
            &&& steps[1] == WorkerStep::AwaitMaps
            &&& steps[2] == WorkerStep::ReceiveTap
            &&& steps[3] == WorkerStep::LimitDescriptors
            &&& steps[steps.len() - 2] == WorkerStep::SendReady
            &&& steps.last() == WorkerStep::Serve
            &&& steps.len() == if sandbox == SandboxConfig::On {
                11int
            } else {
                8
            }
        }),
{
}

/// The exit code of a command is its own, or 128 and the number of the signal
/// that ended it; one that still runs or was only stopped has none.
pub proof fn law_exit_code_tells_how_the_command_ended(code: i32, signal: i32, status: WaitStatus)
    ensures
        command_code(WaitStatus::Exited(code)) == Some(code as int),
        command_code(WaitStatus::Signaled(signal)) == Some(128 + signal as int),
        !(status is Exited) && !(status is Signaled) ==> command_code(status) is None,
{
}

/// The first worker that is gone is found: all before it run, and it does not.
pub proof fn law_first_gone_worker_is_found(workers: Seq<WaitStatus>, at: int)
    requires
        0 <= at <= workers.len(),
    ensures
        ({
            let found = first_gone(workers, at);
            &&& at <= found <= workers.len()
            &&& forall|i: int|
                at <= i < found ==> (#[trigger] workers[i]) == WaitStatus::StillRunning
            &&& found < workers.len() ==> workers[found] != WaitStatus::StillRunning
        }),
    decreases workers.len() - at,
{
    if at < workers.len() && workers[at] == WaitStatus::StillRunning {
        law_first_gone_worker_is_found(workers, at + 1);
    }
}

/// After a worker is gone the namespace is asked to end, and everybody is waited
/// for; after the namespace is gone only the workers are. In every other case
/// nothing is done in order, and whoever runs is killed.
pub proof fn law_endings_wait_for_whoever_is_left(index: usize, ending: Ending)
    ensures
        ({
            let steps = end_order(Ending::WorkerGone(index));
            &&& steps.len() == 4
            &&& steps[0] == EndStep::ShutDownWorkers
            &&& steps[1] == EndStep::TerminateNamespace
            &&& steps[2] == EndStep::WaitNamespace
            &&& steps[3] == EndStep::WaitWorkers
        }),
        ({
            let steps = end_order(Ending::NamespaceGone);
            &&& steps.len() == 2
            &&& steps[0] == EndStep::ShutDownWorkers
            &&& steps[1] == EndStep::WaitWorkers
        }),
        end_order(ending).len() > 0 <==> ending is Exited || ending is WorkerGone
            || ending is NamespaceGone,
        ending is Exited ==> !end_order(ending).contains(EndStep::TerminateNamespace),
{
}

/// A map says that the identity outside is root inside, and is for one identity
/// only: `0`, the identity in decimal, `1`.
pub proof fn law_map_is_for_one_identity(id: u32)
    ensures
        ({
            let text = identity_map(id);
            let n = text.len();
            &&& text[0] as char == '0' && text[1] as char == ' '
            &&& text.subrange(2, n - 3) == decimal(id as nat)
            &&& text[n - 3] as char == ' ' && text[n - 2] as char == '1' && text[n - 1] as char
                == '\n'
        }),
{
    let text = identity_map(id);
    assert(text.subrange(2, text.len() - 3) =~= decimal(id as nat));
}

} // verus!
