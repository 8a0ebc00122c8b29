//! The life of the throwaway engine instance: what to do next while it is
//! brought up, watched until it answers, and taken down again.
//!
//! Nothing here touches a process or a directory. `Instance::step` takes
//! what happened and gives the next thing to do; whoever drives it does it
//! and comes back with the outcome.

use crate::db_output::push_text;
use crate::text::string_of;
use vstd::prelude::*;

verus! {

/// The longest time, in seconds, that the engine is given to answer.
pub const HEALTH_TIMEOUT_SECS: u64 = 60;

/// The pause, in seconds, between two probes.
pub const PROBE_INTERVAL_SECS: u64 = 1;

/// Where the instance stands.
#[derive(Debug, PartialEq, Eq, Clone, Copy)]
pub enum Phase {
    Uninitialized,
    Initializing,
    Starting,
    HealthChecking,
    Ready,
    ShuttingDown,
    Crashed,
    Terminated,
}

/// Why the instance did not come up.
#[derive(Debug, PartialEq, Eq, Clone, Copy)]
pub enum StartupError {
    /// The storage directory could not be initialised.
    InitFailed,
    /// The configuration could not be appended.
    ConfigFailed,
    /// The server process could not be started.
    SpawnFailed,
    /// The server process ended while it was waited for.
    ProcessExited,
    /// The server did not answer in time.
    TimedOut,
}

/// What went wrong while the instance was taken down.
#[derive(Debug, PartialEq, Eq, Clone, Copy)]
pub enum ShutdownError {
    /// It could not be told whether the server process still runs.
    StatusUnknown,
    /// The request to terminate could not be delivered.
    SignalFailed,
}

/// What is known of the server process.
#[derive(Debug, PartialEq, Eq, Clone, Copy)]
pub enum ProcessState {
    Running,
    Exited,
    Unknown,
}

/// What happened outside.
#[derive(Debug, PartialEq, Eq, Clone, Copy)]
pub enum Event {
    /// An instance is asked for.
    Provision,
    /// The storage directory was initialised, or not.
    StorageInitialized { ok: bool },
    /// The configuration was appended, or not.
    ConfigAppended { ok: bool },
    /// The server process was started, or not.
    Spawned { ok: bool },
    /// A probe was made: whether the server answered, and whether its
    /// process has ended.
    Probed { connected: bool, exited: bool },
    /// The pause between probes is over; so many seconds have passed since
    /// the first probe.
    Slept { waited_secs: u64 },
    /// The scope that owns the instance ends.
    Teardown,
    /// The state of the server process was looked up.
    StatusChecked { state: ProcessState },
    /// The request to terminate was delivered, or not.
    SignalSent { ok: bool },
    /// The server process has ended.
    ProcessGone,
    /// The log files have their lasting names.
    LogsRenamed,
    /// The storage directory is deleted.
    StorageDeleted,
}

/// What is to be done next.
#[derive(Debug, PartialEq, Eq, Clone, Copy)]
pub enum Action {
    /// Initialise the storage directory.
    InitStorage,
    /// Append the configuration of `config_text`.
    AppendConfig,
    /// Start the server process, its output sent to the temporary logs.
    Spawn,
    /// Try to connect, and look whether the process has ended.
    Probe,
    /// Pause for `PROBE_INTERVAL_SECS`.
    Sleep,
    /// The engine answers: run the tests, then send `Event::Teardown`.
    RunTests,
    /// Look up whether the server process still runs.
    CheckStatus,
    /// Ask the server process to terminate.
    SendSignal,
    /// Wait until the server process has ended.
    AwaitExit,
    /// Give the log files their lasting names.
    RenameLogs { crashed: bool },
    /// Delete the storage directory.
    DeleteStorage,
    /// Nothing is left to do.
    Rest,
}

/// An instance as mathematical values.
pub struct InstanceView {
    pub phase: Phase,
    /// What was asked for last and is not answered yet.
    pub pending: Action,
    /// Whether a storage directory exists that this instance made.
    pub storage: bool,
    /// Whether a server process exists that this instance started.
    pub process: bool,
    /// Whether teardown has begun.
    pub torn_down: bool,
    pub startup_error: Option<StartupError>,
    pub shutdown_error: Option<ShutdownError>,
}

/// The instance before anything has happened.
pub open spec fn fresh() -> InstanceView {
    InstanceView {
        phase: Phase::Uninitialized,
        pending: Action::Rest,
        storage: false,
        process: false,
        torn_down: false,
        startup_error: None,
        shutdown_error: None,
    }
}

/// The start of teardown. A process that was started is looked at first;
/// without one, the storage directory is deleted if there is one.
pub open spec fn begin_teardown(inst: InstanceView) -> InstanceView {
    if inst.process {
        InstanceView { torn_down: true, pending: Action::CheckStatus, ..inst }
    } else if inst.storage {
        InstanceView {
            torn_down: true,
            phase: Phase::ShuttingDown,
            pending: Action::DeleteStorage,
            ..inst
        }
    } else {
        InstanceView { torn_down: true, phase: Phase::Terminated, pending: Action::Rest, ..inst }
    }
}

/// A failure to come up: it is noted, and teardown follows at once.
pub open spec fn fail(inst: InstanceView, error: StartupError) -> InstanceView {
    begin_teardown(InstanceView { startup_error: Some(error), ..inst })
}

/// The end of teardown with things left as they are.
pub open spec fn give_up(inst: InstanceView, error: ShutdownError) -> InstanceView {
    InstanceView {
        shutdown_error: Some(error),
        phase: Phase::Terminated,
        pending: Action::Rest,
        ..inst
    }
}

/// The instance after `event`. An event that does not answer what was asked
/// for last changes nothing; the end of the scope is heeded once, whenever
/// it comes.
pub open spec fn advance(inst: InstanceView, event: Event) -> InstanceView {
    match (inst.pending, event) {
        (_, Event::Teardown) => if inst.torn_down {
            inst
        } else {
            begin_teardown(inst)
        },
        (Action::Rest, Event::Provision) => if inst.phase == Phase::Uninitialized
            && !inst.torn_down {
            InstanceView {
                phase: Phase::Initializing,
                storage: true,
                pending: Action::InitStorage,
                ..inst
            }
        } else {
            inst
        },
        (Action::InitStorage, Event::StorageInitialized { ok }) => if ok {
            InstanceView { pending: Action::AppendConfig, ..inst }
        } else {
            fail(inst, StartupError::InitFailed)
        },
        (Action::AppendConfig, Event::ConfigAppended { ok }) => if ok {
            InstanceView { phase: Phase::Starting, pending: Action::Spawn, ..inst }
        } else {
            fail(inst, StartupError::ConfigFailed)
        },
        (Action::Spawn, Event::Spawned { ok }) => if ok {
            InstanceView {
                phase: Phase::HealthChecking,
                process: true,
                pending: Action::Probe,
                ..inst
            }
        } else {
            fail(inst, StartupError::SpawnFailed)
        },
        (Action::Probe, Event::Probed { connected, exited }) => if connected {
            InstanceView { phase: Phase::Ready, pending: Action::RunTests, ..inst }
        } else if exited {
            fail(inst, StartupError::ProcessExited)
        } else {
            InstanceView { pending: Action::Sleep, ..inst }
        },
        (Action::Sleep, Event::Slept { waited_secs }) => if waited_secs >= HEALTH_TIMEOUT_SECS {
            fail(inst, StartupError::TimedOut)
        } else {
            InstanceView { pending: Action::Probe, ..inst }
        },
        (Action::CheckStatus, Event::StatusChecked { state }) => match state {
            ProcessState::Exited => InstanceView {
                phase: Phase::Crashed,
                process: false,
                pending: Action::RenameLogs { crashed: true },
                ..inst
            },
            ProcessState::Running => InstanceView {
                phase: Phase::ShuttingDown,
                pending: Action::SendSignal,
                ..inst
            },
            ProcessState::Unknown => give_up(inst, ShutdownError::StatusUnknown),
        },
        (Action::SendSignal, Event::SignalSent { ok }) => if ok {
            InstanceView { pending: Action::AwaitExit, ..inst }
        } else {
            give_up(inst, ShutdownError::SignalFailed)
        },
        (Action::AwaitExit, Event::ProcessGone) => InstanceView {
            process: false,
            pending: Action::RenameLogs { crashed: false },
            ..inst
        },
        (Action::RenameLogs { crashed }, Event::LogsRenamed) => if crashed {
            InstanceView { phase: Phase::Terminated, pending: Action::Rest, ..inst }
        } else {
            InstanceView { pending: Action::DeleteStorage, ..inst }
        },
        (Action::DeleteStorage, Event::StorageDeleted) => InstanceView {
            storage: false,
            phase: Phase::Terminated,
            pending: Action::Rest,
            ..inst
        },
        _ => inst,
    }
}

/// What holds of an instance however it got where it is.
pub open spec fn consistent(inst: InstanceView) -> bool {
    // before teardown the phase tells what is asked for
    &&& !inst.torn_down ==> match inst.phase {
        Phase::Uninitialized => inst.pending == Action::Rest && !inst.storage && !inst.process,
        Phase::Initializing => (inst.pending == Action::InitStorage || inst.pending
            == Action::AppendConfig) && inst.storage && !inst.process,
        Phase::Starting => inst.pending == Action::Spawn && inst.storage && !inst.process,
        Phase::HealthChecking => (inst.pending == Action::Probe || inst.pending == Action::Sleep)
            && inst.storage && inst.process,
        Phase::Ready => inst.pending == Action::RunTests && inst.storage && inst.process,
        _ => false,
    }
    &&& !inst.torn_down ==> inst.startup_error is None && inst.shutdown_error is None
    // during teardown what is asked for tells how far it has come
    &&& inst.torn_down ==> match inst.pending {
        Action::CheckStatus => inst.process && inst.storage && inst.phase != Phase::Terminated
            && inst.phase != Phase::Crashed && inst.phase != Phase::ShuttingDown,
        Action::SendSignal => inst.process && inst.storage && inst.phase == Phase::ShuttingDown,
        Action::AwaitExit => inst.process && inst.storage && inst.phase == Phase::ShuttingDown,
        Action::RenameLogs { crashed } => !inst.process && inst.storage && (if crashed {
            inst.phase == Phase::Crashed
        } else {
            inst.phase == Phase::ShuttingDown
        }),
        Action::DeleteStorage => !inst.process && inst.storage && inst.phase
            == Phase::ShuttingDown,
        Action::Rest => inst.phase == Phase::Terminated,
        _ => false,
    }
    // the storage directory is gone only where no process is left
    &&& inst.process ==> inst.storage
    &&& inst.phase == Phase::Terminated ==> inst.torn_down && inst.pending == Action::Rest
    &&& inst.shutdown_error is Some ==> inst.phase == Phase::Terminated
    &&& inst.phase == Phase::Ready ==> inst.startup_error is None
}

/// The engine instance's manager: it keeps track of what exists and tells
/// what to do next.
#[derive(Debug, Clone, Copy)]
pub struct Instance {
    phase: Phase,
    pending: Action,
    storage: bool,
    process: bool,
    torn_down: bool,
    startup_error: Option<StartupError>,
    shutdown_error: Option<ShutdownError>,
}

impl View for Instance {
    type V = InstanceView;

    closed spec fn view(&self) -> InstanceView {
        InstanceView {
            phase: self.phase,
            pending: self.pending,
            storage: self.storage,
            process: self.process,
            torn_down: self.torn_down,
            startup_error: self.startup_error,
            shutdown_error: self.shutdown_error,
        }
    }
}

impl Instance {
    /// An instance of which nothing exists yet.
    pub fn new() -> (inst: Self)
        ensures
            inst@ == fresh(),
            consistent(inst@),
    {
        Instance {
            phase: Phase::Uninitialized,
            pending: Action::Rest,
            storage: false,
            process: false,
            torn_down: false,
            startup_error: None,
            shutdown_error: None,
        }
    }

    /// Where the instance stands.
    pub fn phase(&self) -> (p: Phase)
        ensures
            p == self@.phase,
    {
        self.phase
    }

    /// Why the instance did not come up, if it did not.
    pub fn startup_error(&self) -> (e: Option<StartupError>)
        ensures
            e == self@.startup_error,
    {
        self.startup_error
    }

    /// What went wrong while the instance was taken down, if anything did.
    pub fn shutdown_error(&self) -> (e: Option<ShutdownError>)
        ensures
            e == self@.shutdown_error,
    {
        self.shutdown_error
    }

    /// Whether the storage directory was left in place for a look at it.
    pub fn storage_left(&self) -> (b: bool)
        ensures
            b == self@.storage,
    {
        self.storage
    }

    /// Begins teardown.
    fn start_teardown(&mut self)
        ensures
            final(self)@ == begin_teardown(old(self)@),
    {
        self.torn_down = true;
        if self.process {
            self.pending = Action::CheckStatus;
        } else if self.storage {
            self.phase = Phase::ShuttingDown;
            self.pending = Action::DeleteStorage;
        } else {
            self.phase = Phase::Terminated;
            self.pending = Action::Rest;
        }
    }

    /// Notes a failure to come up and begins teardown.
    fn fail_with(&mut self, error: StartupError)
        ensures
            final(self)@ == fail(old(self)@, error),
    {
        self.startup_error = Some(error);
        self.start_teardown();
    }

    /// Ends teardown and leaves things as they are.
    fn give_up_with(&mut self, error: ShutdownError)
        ensures
            final(self)@ == give_up(old(self)@, error),
    {
        self.shutdown_error = Some(error);
        self.phase = Phase::Terminated;
        self.pending = Action::Rest;
    }

    /// Takes what happened and tells what to do next.
    pub fn step(&mut self, event: Event) -> (action: Action)
        ensures
            final(self)@ == advance(old(self)@, event),
            action == final(self)@.pending,
            consistent(old(self)@) ==> consistent(final(self)@),
    {
        match (self.pending, event) {
            (_, Event::Teardown) => {
                if !self.torn_down {
                    self.start_teardown();
                }
            },
            (Action::Rest, Event::Provision) => {
                if matches!(self.phase, Phase::Uninitialized) && !self.torn_down {
                    self.phase = Phase::Initializing;
                    self.storage = true;
                    self.pending = Action::InitStorage;
                }
            },
            (Action::InitStorage, Event::StorageInitialized { ok }) => {
                if ok {
                    self.pending = Action::AppendConfig;
                } else {
                    self.fail_with(StartupError::InitFailed);
                }
            },
            (Action::AppendConfig, Event::ConfigAppended { ok }) => {
                if ok {
                    self.phase = Phase::Starting;
                    self.pending = Action::Spawn;
                } else {
                    self.fail_with(StartupError::ConfigFailed);
                }
            },
            (Action::Spawn, Event::Spawned { ok }) => {
                if ok {
                    self.phase = Phase::HealthChecking;
                    self.process = true;
                    self.pending = Action::Probe;
                } else {
                    self.fail_with(StartupError::SpawnFailed);
                }
            },
            (Action::Probe, Event::Probed { connected, exited }) => {
                if connected {
                    self.phase = Phase::Ready;
                    self.pending = Action::RunTests;
                } else if exited {
                    self.fail_with(StartupError::ProcessExited);
                } else {
                    self.pending = Action::Sleep;
                }
            },
            (Action::Sleep, Event::Slept { waited_secs }) => {
                if waited_secs >= HEALTH_TIMEOUT_SECS {
                    self.fail_with(StartupError::TimedOut);
                } else {
                    self.pending = Action::Probe;
                }
            },
            (Action::CheckStatus, Event::StatusChecked { state }) => {
                match state {
                    ProcessState::Exited => {
                        self.phase = Phase::Crashed;
                        self.process = false;
                        self.pending = Action::RenameLogs { crashed: true };
                    },
                    ProcessState::Running => {
                        self.phase = Phase::ShuttingDown;
                        self.pending = Action::SendSignal;
                    },
                    ProcessState::Unknown => {
                        self.give_up_with(ShutdownError::StatusUnknown);
                    },
                }
            },
            (Action::SendSignal, Event::SignalSent { ok }) => {
                if ok {
                    self.pending = Action::AwaitExit;
                } else {
                    self.give_up_with(ShutdownError::SignalFailed);
                }
            },
            (Action::AwaitExit, Event::ProcessGone) => {
                self.process = false;
                self.pending = Action::RenameLogs { crashed: false };
            },
            (Action::RenameLogs { crashed }, Event::LogsRenamed) => {
                if crashed {
                    self.phase = Phase::Terminated;
                    self.pending = Action::Rest;
                } else {
                    self.pending = Action::DeleteStorage;
                }
            },
            (Action::DeleteStorage, Event::StorageDeleted) => {
                self.storage = false;
                self.phase = Phase::Terminated;
                self.pending = Action::Rest;
            },
            _ => {},
        }
        self.pending
    }
}

/// The instance after all of `events`, in order.
pub open spec fn advance_all(inst: InstanceView, events: Seq<Event>) -> InstanceView
    decreases events.len(),
{
    if events.len() == 0 {
        inst
    } else {
        advance(advance_all(inst, events.drop_last()), events.last())
    }
}

/// Whatever happens, and in whatever order, an instance that began fresh
/// keeps its books in order.
pub proof fn lemma_always_consistent(events: Seq<Event>)
    ensures
        consistent(advance_all(fresh(), events)),
    decreases events.len(),
{
    if events.len() > 0 {
        lemma_always_consistent(events.drop_last());
    }
}

/// The end of the scope is heeded once: when teardown has begun, another
/// end of scope changes nothing and asks for nothing new.
pub proof fn lemma_teardown_is_heeded_once(inst: InstanceView)
    requires
        inst.torn_down,
    ensures
        advance(inst, Event::Teardown) == inst,
{
}

/// Teardown always begins when the scope ends, wherever the instance
/// stands, and ends the bring-up for good.
pub proof fn lemma_teardown_begins_at_scope_end(inst: InstanceView)
    requires
        consistent(inst),
        !inst.torn_down,
    ensures
        advance(inst, Event::Teardown).torn_down,
        advance(inst, Event::Teardown).pending != Action::RunTests,
        inst.process ==> advance(inst, Event::Teardown).pending == Action::CheckStatus,
{
}

/// Once teardown has begun it stays begun, and the tests are not asked for
/// again.
pub proof fn lemma_teardown_is_not_undone(inst: InstanceView, event: Event)
    requires
        consistent(inst),
        inst.torn_down,
    ensures
        advance(inst, event).torn_down,
        advance(inst, event).pending != Action::RunTests,
{
}

/// A terminated instance stays as it is whatever happens.
pub proof fn lemma_terminated_is_final(inst: InstanceView, event: Event)
    requires
        consistent(inst),
        inst.phase == Phase::Terminated,
    ensures
        advance(inst, event) == inst,
{
}

/// Every failure to come up is followed by teardown at once.
pub proof fn lemma_startup_failure_tears_down(inst: InstanceView, event: Event)
    requires
        consistent(inst),
        inst.startup_error is None,
        advance(inst, event).startup_error is Some,
    ensures
        advance(inst, event).torn_down,
        advance(inst, event).phase != Phase::Ready,
{
}

/// The instance becomes ready only by an answer to a probe.
pub proof fn lemma_ready_needs_an_answer(inst: InstanceView, event: Event)
    requires
        consistent(inst),
        inst.phase != Phase::Ready,
        advance(inst, event).phase == Phase::Ready,
    ensures
        inst.phase == Phase::HealthChecking,
        event matches Event::Probed { connected, .. } && connected,
{
}

/// While the instance is watched, a process that has ended fails it at
/// once, and so does a pause that ends at or after the timeout; before
/// that, a probe follows every pause.
pub proof fn lemma_health_check(inst: InstanceView, waited_secs: u64)
    requires
        consistent(inst),
        !inst.torn_down,
        inst.phase == Phase::HealthChecking,
    ensures
        inst.pending == Action::Probe ==> advance(
            inst,
            Event::Probed { connected: false, exited: true },
        ).startup_error == Some(StartupError::ProcessExited),
        inst.pending == Action::Probe ==> advance(
            inst,
            Event::Probed { connected: false, exited: false },
        ).pending == Action::Sleep,
        inst.pending == Action::Sleep && waited_secs >= 60 ==> advance(
            inst,
            Event::Slept { waited_secs },
        ).startup_error == Some(StartupError::TimedOut),
        inst.pending == Action::Sleep && waited_secs < 60 ==> advance(
            inst,
            Event::Slept { waited_secs },
        ).pending == Action::Probe,
{
}

/// The storage directory goes only as the answer to a request to delete
/// it, and that request is made only when no server process is left.
pub proof fn lemma_storage_outlives_the_process(inst: InstanceView, event: Event)
    requires
        consistent(inst),
    ensures
        inst.storage && !advance(inst, event).storage ==> inst.pending == Action::DeleteStorage
            && event == Event::StorageDeleted && !inst.process,
        advance(inst, event).pending == Action::DeleteStorage ==> !advance(inst, event).process,
{
}

/// After a crash the logs are kept under their names for a crash and the
/// storage directory stays for a look at it.
pub proof fn lemma_crash_keeps_storage(inst: InstanceView, event: Event)
    requires
        consistent(inst),
        inst.phase == Phase::Crashed,
    ensures
        inst.pending == (Action::RenameLogs { crashed: true }),
        advance(inst, event).storage,
        advance(inst, event).pending != Action::DeleteStorage,
        advance(inst, event).phase == Phase::Crashed || advance(inst, event).phase
            == Phase::Terminated,
{
}

/// Where the request to terminate cannot be delivered, teardown ends and
/// leaves the process and the storage directory as they are.
pub proof fn lemma_failed_signal_leaves_everything(inst: InstanceView)
    requires
        consistent(inst),
        inst.pending == Action::SendSignal,
    ensures
        advance(inst, Event::SignalSent { ok: false }).phase == Phase::Terminated,
        advance(inst, Event::SignalSent { ok: false }).storage,
        advance(inst, Event::SignalSent { ok: false }).process,
        advance(inst, Event::SignalSent { ok: false }).shutdown_error == Some(
            ShutdownError::SignalFailed,
        ),
{
}

/// A clean shutdown goes through its steps in order: the request to
/// terminate, the wait for the process, the lasting names of the logs, and
/// only then the deletion of the storage directory.
pub proof fn lemma_clean_shutdown_order(inst: InstanceView)
    requires
        consistent(inst),
        inst.pending == Action::CheckStatus,
    ensures
        ({
            let a = advance(inst, Event::StatusChecked { state: ProcessState::Running });
            let b = advance(a, Event::SignalSent { ok: true });
            let c = advance(b, Event::ProcessGone);
            let d = advance(c, Event::LogsRenamed);
            let e = advance(d, Event::StorageDeleted);
            &&& a.pending == Action::SendSignal
            &&& b.pending == Action::AwaitExit
            &&& c.pending == (Action::RenameLogs { crashed: false })
            &&& d.pending == Action::DeleteStorage
            &&& e.phase == Phase::Terminated && !e.storage && !e.process
        }),
{
}

/// The flag that says whether the role which the tests log in with exists.
/// It is made once in a run, with the first database.
#[derive(Debug, Clone, Copy)]
pub struct RoleGuard {
    created: bool,
}

impl RoleGuard {
    /// Whether the role is known to exist.
    pub closed spec fn created(&self) -> bool {
        self.created
    }

    /// A guard for a run in which the role was not made yet.
    pub fn new() -> (g: Self)
        ensures
            !g.created(),
    {
        RoleGuard { created: false }
    }

    /// Whether the role is still to be made.
    pub fn needed(&self) -> (b: bool)
        ensures
            b == !self.created(),
    {
        !self.created
    }

    /// Notes how an attempt to make the role went. A failed attempt leaves
    /// the role to be made; once it is made it stays made.
    pub fn record(&mut self, ok: bool)
        ensures
            final(self).created() == (old(self).created() || ok),
    {
        if ok {
            self.created = true;
        }
    }
}

/// A call of one of the engine's tools.
#[derive(Debug, PartialEq, Eq)]
pub enum ToolCall {
    /// Initialise the storage directory `data_dir`.
    InitStorage { data_dir: String },
    /// Serve the storage directory `data_dir` on `port`.
    Serve { data_dir: String, port: String },
    /// Try to connect to the server on `port`.
    Probe { port: String },
    /// Make the database `name`.
    CreateDatabase { port: String, name: String },
    /// Make the role that the tests log in with, through the database
    /// `name`.
    CreateRole { port: String, name: String },
    /// Drop the database `name`, with the sessions that still use it.
    DropDatabase { port: String, name: String },
}

/// The name of the tool that a call runs.
pub open spec fn tool_name(call: ToolCall) -> Seq<char> {
    match call {
        ToolCall::InitStorage { .. } => "initdb"@,
        ToolCall::Serve { .. } => "postgres"@,
        ToolCall::Probe { .. } => "psql"@,
        ToolCall::CreateDatabase { .. } => "createdb"@,
        ToolCall::CreateRole { .. } => "psql"@,
        ToolCall::DropDatabase { .. } => "dropdb"@,
    }
}

/// The arguments that a call hands to its tool.
pub open spec fn tool_arguments(call: ToolCall) -> Seq<Seq<char>> {
    match call {
        ToolCall::InitStorage { data_dir } => seq![
            "-D"@,
            data_dir@,
            "--no-clean"@,
            "--no-sync"@,
        ],
        ToolCall::Serve { data_dir, port } => seq![
            "-D"@,
            data_dir@,
            "-F"@,
            "-c"@,
            "port="@ + port@,
        ],
        ToolCall::Probe { port } => seq!["-X"@, "postgres"@, "-p"@, port@],
        ToolCall::CreateDatabase { port, name } => seq!["-p"@, port@, name@],
        ToolCall::CreateRole { port, name } => seq![
            "-X"@,
            "-p"@,
            port@,
            "-c"@,
            "CREATE ROLE postgres WITH LOGIN;"@,
            name@,
        ],
        ToolCall::DropDatabase { port, name } => seq!["-f"@, "-p"@, port@, name@],
    }
}

/// The texts in `v`.
pub open spec fn strings_view(v: Seq<String>) -> Seq<Seq<char>> {
    v.map_values(|s: String| s@)
}

/// Appends one argument.
fn push_arg(args: &mut Vec<String>, arg: &str)
    ensures
        strings_view(final(args)@) == strings_view(old(args)@).push(arg@),
{
    let s = arg.to_owned();
    assert(strings_view(args@.push(s)) =~= strings_view(args@).push(arg@));
    args.push(s);
}

impl ToolCall {
    /// The name of the tool to run.
    pub fn program(&self) -> (name: String)
        ensures
            name@ == tool_name(*self),
    {
        match self {
            ToolCall::InitStorage { .. } => "initdb".to_owned(),
            ToolCall::Serve { .. } => "postgres".to_owned(),
            ToolCall::Probe { .. } => "psql".to_owned(),
            ToolCall::CreateDatabase { .. } => "createdb".to_owned(),
            ToolCall::CreateRole { .. } => "psql".to_owned(),
            ToolCall::DropDatabase { .. } => "dropdb".to_owned(),
        }
    }

    /// The arguments to hand to the tool.
    pub fn arguments(&self) -> (args: Vec<String>)
        ensures
            strings_view(args@) == tool_arguments(*self),
    {
        let mut args: Vec<String> = Vec::new();
        assert(strings_view(args@) =~= Seq::<Seq<char>>::empty());
        match self {
            ToolCall::InitStorage { data_dir } => {
                push_arg(&mut args, "-D");
                push_arg(&mut args, data_dir.as_str());
                push_arg(&mut args, "--no-clean");
                push_arg(&mut args, "--no-sync");
            },
            ToolCall::Serve { data_dir, port } => {
                push_arg(&mut args, "-D");
                push_arg(&mut args, data_dir.as_str());
                push_arg(&mut args, "-F");
                push_arg(&mut args, "-c");
                let mut setting: Vec<char> = Vec::new();
                push_text(&mut setting, "port=");
                push_text(&mut setting, port.as_str());
                assert(setting@ =~= "port="@ + port@);
                let setting = string_of(&setting);
                push_arg(&mut args, setting.as_str());
            },
            ToolCall::Probe { port } => {
                push_arg(&mut args, "-X");
                push_arg(&mut args, "postgres");
                push_arg(&mut args, "-p");
                push_arg(&mut args, port.as_str());
            },
            ToolCall::CreateDatabase { port, name } => {
                push_arg(&mut args, "-p");
                push_arg(&mut args, port.as_str());
                push_arg(&mut args, name.as_str());
            },
            ToolCall::CreateRole { port, name } => {
                push_arg(&mut args, "-X");
                push_arg(&mut args, "-p");
                push_arg(&mut args, port.as_str());
                push_arg(&mut args, "-c");
                push_arg(&mut args, "CREATE ROLE postgres WITH LOGIN;");
                push_arg(&mut args, name.as_str());
            },
            ToolCall::DropDatabase { port, name } => {
                push_arg(&mut args, "-f");
                push_arg(&mut args, "-p");
                push_arg(&mut args, port.as_str());
                push_arg(&mut args, name.as_str());
            },
        }
        assert(strings_view(args@) =~= tool_arguments(*self));
        args
    }
}

/// How a session is asked for: on this machine, on `port`, in `database`,
/// as the role that the tests log in with.
pub open spec fn connection_text(port: Seq<char>, database: Seq<char>) -> Seq<char> {
    "host=localhost port="@ + port + " user=postgres dbname="@ + database
        + " application_name=tests"@
}

/// Builds the text by which a session is asked for.
pub fn connection_string(port: &str, database: &str) -> (s: String)
    ensures
        s@ == connection_text(port@, database@),
{
    let mut text: Vec<char> = Vec::new();
    push_text(&mut text, "host=localhost port=");
    push_text(&mut text, port);
    push_text(&mut text, " user=postgres dbname=");
    push_text(&mut text, database);
    push_text(&mut text, " application_name=tests");
    assert(text@ =~= connection_text(port@, database@));
    string_of(&text)
}

/// The settings that are appended to the instance's configuration: lock
/// waits, checkpoints, autovacuum runs and temporary files are logged, and
/// every log line begins with time, backend and process.
pub const CONFIG: &'static str = "\n# Configuration added by test runner\n\
log_autovacuum_min_duration = 0\n\
log_checkpoints = on\n\
log_line_prefix = '%m %b[%p] %q%a '\n\
log_lock_waits = on\n\
log_temp_files = 128kB\n\
max_prepared_transactions = 2\n";

/// The text to append to the instance's configuration.
pub fn config_text() -> (s: String)
    ensures
        s@ == CONFIG@,
{
    CONFIG.to_owned()
}

/// The names under which the server's output and errors are kept while it
/// runs.
pub fn temporary_log_names() -> (names: (String, String))
    ensures
        names.0@ == "postmaster-stdout.temp.log"@,
        names.1@ == "postmaster-stderr.temp.log"@,
{
    ("postmaster-stdout.temp.log".to_owned(), "postmaster-stderr.temp.log".to_owned())
}

/// The names under which the server's output and errors are kept for good;
/// the logs of a crash have names of their own.
pub fn lasting_log_names(crashed: bool) -> (names: (String, String))
    ensures
        names.0@ == (if crashed {
            "postmaster-crash-out.log"@
        } else {
            "postmaster-out.log"@
        }),
        names.1@ == (if crashed {
            "postmaster-crash-err.log"@
        } else {
            "postmaster-err.log"@
        }),
{
    if crashed {
        ("postmaster-crash-out.log".to_owned(), "postmaster-crash-err.log".to_owned())
    } else {
        ("postmaster-out.log".to_owned(), "postmaster-err.log".to_owned())
    }
}

} // verus!
