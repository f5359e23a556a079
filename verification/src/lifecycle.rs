//! Ownership of the local llama server: reuse a healthy server, start one only when none answers,
//! and stop it on exit only when this application started it.
//!
//! The decisions are step functions from a phase, the recorded server state and the outcome of
//! the last piece of outside work, to the next phase and the next piece of work.
use vstd::prelude::*;

verus! {

broadcast use vstd::string::group_string_axioms;

/// Who started the server that the application talks to.
#[derive(Debug, Clone, Copy, PartialEq, Eq, Structural)]
pub enum Ownership {
    Unowned,
    External,
    SelfManaged,
}

/// The life-cycle status of the server as the application records it.
#[derive(Debug, Clone, Copy, PartialEq, Eq, Structural)]
pub enum ServerStatus {
    Stopped,
    Starting,
    Running,
    Error,
    Stopping,
}

/// The text under which a status is reported and stored.
pub open spec fn status_text(s: ServerStatus) -> Seq<char> {
    match s {
        ServerStatus::Stopped => "stopped"@,
        ServerStatus::Starting => "starting"@,
        ServerStatus::Running => "running"@,
        ServerStatus::Error => "error"@,
        ServerStatus::Stopping => "stopping"@,
    }
}

/// The text under which an ownership is reported and stored.
pub open spec fn ownership_text(o: Ownership) -> Seq<char> {
    match o {
        Ownership::Unowned => "none"@,
        Ownership::External => "external"@,
        Ownership::SelfManaged => "self"@,
    }
}

impl ServerStatus {
    /// The status as text.
    pub fn as_text(&self) -> (r: String)
        ensures
            r@ == status_text(*self),
    {
        match self {
            ServerStatus::Stopped => String::from_str("stopped"),
            ServerStatus::Starting => String::from_str("starting"),
            ServerStatus::Running => String::from_str("running"),
            ServerStatus::Error => String::from_str("error"),
            ServerStatus::Stopping => String::from_str("stopping"),
        }
    }
}

impl Ownership {
    /// The ownership as text.
    pub fn as_text(&self) -> (r: String)
        ensures
            r@ == ownership_text(*self),
    {
        match self {
            Ownership::Unowned => String::from_str("none"),
            Ownership::External => String::from_str("external"),
            Ownership::SelfManaged => String::from_str("self"),
        }
    }
}

/// Whether the application should stop the server when it closes, given the ownership as
/// reported: only a server that this application started (`"self"`).
pub fn should_shutdown_on_exit(ownership: &str) -> (r: bool)
    ensures
        r == (ownership@ == "self"@),
{
    crate::text::str_equal(ownership, "self")
}

/// What the application knows of the server: its recorded status, who owns it, its process id,
/// the last message, and whether the application holds the process it started.
#[derive(Debug)]
pub struct ServerState {
    pub status: ServerStatus,
    pub ownership: Ownership,
    pub pid: Option<u32>,
    pub message: Option<String>,
    pub has_child: bool,
}

/// `ServerState` with the message as characters.
pub struct ServerStateView {
    pub status: ServerStatus,
    pub ownership: Ownership,
    pub pid: Option<u32>,
    pub message: Option<Seq<char>>,
    pub has_child: bool,
}

/// The characters of an optional string.
pub open spec fn opt_chars(o: Option<String>) -> Option<Seq<char>> {
    match o {
        Some(s) => Some(s@),
        None => None,
    }
}

impl View for ServerState {
    type V = ServerStateView;

    open spec fn view(&self) -> ServerStateView {
        ServerStateView {
            status: self.status,
            ownership: self.ownership,
            pid: self.pid,
            message: opt_chars(self.message),
            has_child: self.has_child,
        }
    }
}

/// The state with status, ownership, process id and message replaced.
pub open spec fn updated(
    s: ServerStateView,
    status: ServerStatus,
    ownership: Ownership,
    pid: Option<u32>,
    message: Seq<char>,
) -> ServerStateView {
    ServerStateView { status, ownership, pid, message: Some(message), ..s }
}

/// A snapshot of the server's state as the application reports it.
#[derive(Debug, Clone)]
pub struct ServerStatusSnapshot {
    pub status: String,
    pub ownership: String,
    pub endpoint: String,
    pub pid: Option<u32>,
    pub message: Option<String>,
}

fn clone_opt(o: &Option<String>) -> (r: Option<String>)
    ensures
        opt_chars(r) == opt_chars(*o),
{
    match o {
        Some(s) => Some(s.clone()),
        None => None,
    }
}

impl ServerState {
    /// The state before anything is known: stopped, owned by no one.
    pub fn new() -> (r: ServerState)
        ensures
            r@ == (ServerStateView {
                status: ServerStatus::Stopped,
                ownership: Ownership::Unowned,
                pid: None,
                message: None,
                has_child: false,
            }),
    {
        ServerState {
            status: ServerStatus::Stopped,
            ownership: Ownership::Unowned,
            pid: None,
            message: None,
            has_child: false,
        }
    }

    fn update(&mut self, status: ServerStatus, ownership: Ownership, pid: Option<u32>, message: &str)
        ensures
            final(self)@ == updated(old(self)@, status, ownership, pid, message@),
    {
        self.status = status;
        self.ownership = ownership;
        self.pid = pid;
        self.message = Some(String::from_str(message));
    }

    /// The state as reported to the user interface, with the server's endpoint.
    pub fn snapshot(&self, endpoint: &str) -> (r: ServerStatusSnapshot)
        ensures
            r.status@ == status_text(self.status),
            r.ownership@ == ownership_text(self.ownership),
            r.endpoint@ == endpoint@,
            r.pid == self.pid,
            opt_chars(r.message) == opt_chars(self.message),
    {
        ServerStatusSnapshot {
            status: self.status.as_text(),
            ownership: self.ownership.as_text(),
            endpoint: String::from_str(endpoint),
            pid: self.pid,
            message: clone_opt(&self.message),
        }
    }
}


/// How many times start-up polls the server's health, a second apart, before giving up.
pub const STARTUP_POLLS: u32 = 60;

/// How many times shutdown waits a second for a killed server to exit before forcing it.
pub const SHUTDOWN_POLLS: u32 = 8;

/// What came of checking whether the started process has exited.
#[derive(Debug, Clone)]
pub enum WaitOutcome {
    /// It is still running.
    Running,
    /// It exited, with this exit status.
    Exited(String),
    /// The check itself failed.
    Failed,
}

/// The outcome of the last piece of outside work.
#[derive(Debug, Clone)]
pub enum LifecycleEvent {
    /// The procedure begins.
    Start,
    /// The health check answered this.
    Health(bool),
    /// The server process was started, with this process id.
    Spawned(Option<u32>),
    /// Starting the server process failed, with this error.
    SpawnFailed(String),
    /// Storing the server state succeeded (or not).
    Persisted(bool),
    /// The process check answered this.
    Waited(WaitOutcome),
    /// The pause is over.
    Slept,
    /// The kill request was made.
    Killed,
}

/// How the procedure ends.
#[derive(Debug, Clone, Copy, PartialEq, Eq, Structural)]
pub enum Outcome {
    /// Success.
    Done,
    /// Storing the server state failed: that error is returned.
    PersistError,
    /// Starting the server failed: that error is returned.
    SpawnError,
    /// Checking the process failed: that error is returned.
    WaitError,
    /// The server never became healthy.
    NotReady,
}

/// The next piece of outside work.
#[derive(Debug, Clone)]
pub enum LifecycleAction {
    CheckHealth,
    Spawn,
    Persist {
        status: ServerStatus,
        ownership: Ownership,
        pid: Option<u32>,
        message: Option<String>,
        must_succeed: bool,
    },
    TryWait,
    Sleep,
    StartKill,
    ForceKill,
    Finish(Outcome),
}

/// `LifecycleAction` with its message as characters.
pub enum ActionView {
    CheckHealth,
    Spawn,
    Persist {
        status: ServerStatus,
        ownership: Ownership,
        pid: Option<u32>,
        message: Option<Seq<char>>,
        must_succeed: bool,
    },
    TryWait,
    Sleep,
    StartKill,
    ForceKill,
    Finish(Outcome),
}

impl View for LifecycleAction {
    type V = ActionView;

    open spec fn view(&self) -> ActionView {
        match self {
            LifecycleAction::CheckHealth => ActionView::CheckHealth,
            LifecycleAction::Spawn => ActionView::Spawn,
            LifecycleAction::Persist { status, ownership, pid, message, must_succeed } => {
                ActionView::Persist {
                    status: *status,
                    ownership: *ownership,
                    pid: *pid,
                    message: opt_chars(*message),
                    must_succeed: *must_succeed,
                }
            },
            LifecycleAction::TryWait => ActionView::TryWait,
            LifecycleAction::Sleep => ActionView::Sleep,
            LifecycleAction::StartKill => ActionView::StartKill,
            LifecycleAction::ForceKill => ActionView::ForceKill,
            LifecycleAction::Finish(o) => ActionView::Finish(*o),
        }
    }
}

/// Where start-up stands.
#[derive(Debug, Clone, Copy, PartialEq, Eq, Structural)]
pub enum InitPhase {
    Begin,
    AwaitHealth,
    AwaitSpawn,
    PersistExternal,
    PersistSpawnFailure,
    Polling { attempt: u32 },
    AwaitExit { attempt: u32 },
    Sleeping { attempt: u32 },
    PersistReady,
    Finished,
}

/// The events that start-up expects in each phase.
pub open spec fn init_accepts(p: InitPhase, e: LifecycleEvent) -> bool {
    match p {
        InitPhase::Begin => e is Start,
        InitPhase::AwaitHealth => e is Health,
        InitPhase::AwaitSpawn => e is Spawned || e is SpawnFailed,
        InitPhase::PersistExternal => e is Persisted,
        InitPhase::PersistSpawnFailure => e is Persisted,
        InitPhase::Polling { attempt } => e is Health && attempt < STARTUP_POLLS,
        InitPhase::AwaitExit { attempt } => e is Waited && attempt < STARTUP_POLLS,
        InitPhase::Sleeping { attempt } => e is Slept && attempt < STARTUP_POLLS,
        InitPhase::PersistReady => e is Persisted,
        InitPhase::Finished => false,
    }
}

/// The finish for a stored state: success, or the storage error.
pub open spec fn persisted_outcome(ok: bool) -> Outcome {
    if ok {
        Outcome::Done
    } else {
        Outcome::PersistError
    }
}

/// One step of start-up: check health first and reuse a healthy server as an external one;
/// otherwise start one, then poll its health once a second up to `STARTUP_POLLS` times, giving up
/// early when the process exits; record each change and store the final state.
pub open spec fn init_transition(p: InitPhase, s: ServerStateView, e: LifecycleEvent) -> (
    InitPhase,
    ServerStateView,
    ActionView,
) {
    match p {
        InitPhase::Begin => (
            InitPhase::AwaitHealth,
            ServerStateView {
                status: ServerStatus::Starting,
                message: Some("Checking local llama server"@),
                ..s
            },
            ActionView::CheckHealth,
        ),
        InitPhase::AwaitHealth => if e == LifecycleEvent::Health(true) {
            (
                InitPhase::PersistExternal,
                updated(
                    s,
                    ServerStatus::Running,
                    Ownership::External,
                    None,
                    "external server detected"@,
                ),
                ActionView::Persist {
                    status: ServerStatus::Running,
                    ownership: Ownership::External,
                    pid: None,
                    message: None,
                    must_succeed: true,
                },
            )
        } else {
            (InitPhase::AwaitSpawn, s, ActionView::Spawn)
        },
        InitPhase::AwaitSpawn => match e {
            LifecycleEvent::SpawnFailed(err) => (
                InitPhase::PersistSpawnFailure,
                updated(
                    s,
                    ServerStatus::Error,
                    Ownership::Unowned,
                    None,
                    "failed to spawn llama server: "@ + err@,
                ),
                ActionView::Persist {
                    status: ServerStatus::Error,
                    ownership: Ownership::Unowned,
                    pid: None,
                    message: Some("llama-server command unavailable"@),
                    must_succeed: false,
                },
            ),
            LifecycleEvent::Spawned(pid) => (
                InitPhase::Polling { attempt: 0 },
                updated(
                    s,
                    ServerStatus::Starting,
                    Ownership::SelfManaged,
                    pid,
                    "spawned local llama server"@,
                ),
                ActionView::CheckHealth,
            ),
            _ => (InitPhase::Finished, s, ActionView::Finish(Outcome::SpawnError)),
        },
        InitPhase::PersistExternal => match e {
            LifecycleEvent::Persisted(ok) => (
                InitPhase::Finished,
                s,
                ActionView::Finish(persisted_outcome(ok)),
            ),
            _ => (InitPhase::Finished, s, ActionView::Finish(Outcome::PersistError)),
        },
        InitPhase::PersistSpawnFailure => (
            InitPhase::Finished,
            s,
            ActionView::Finish(Outcome::SpawnError),
        ),
        InitPhase::Polling { attempt } => if e == LifecycleEvent::Health(true) {
            (
                InitPhase::PersistReady,
                ServerStateView {
                    status: ServerStatus::Running,
                    message: Some("local server ready"@),
                    has_child: true,
                    ..s
                },
                ActionView::Persist {
                    status: ServerStatus::Running,
                    ownership: Ownership::SelfManaged,
                    pid: s.pid,
                    message: None,
                    must_succeed: true,
                },
            )
        } else {
            (InitPhase::AwaitExit { attempt }, s, ActionView::TryWait)
        },
        InitPhase::AwaitExit { attempt } => match e {
            LifecycleEvent::Waited(WaitOutcome::Running) => (
                InitPhase::Sleeping { attempt },
                s,
                ActionView::Sleep,
            ),
            LifecycleEvent::Waited(WaitOutcome::Exited(_)) => (
                InitPhase::Finished,
                updated(
                    s,
                    ServerStatus::Error,
                    Ownership::SelfManaged,
                    s.pid,
                    "server startup timeout"@,
                ),
                ActionView::Finish(Outcome::NotReady),
            ),
            _ => (InitPhase::Finished, s, ActionView::Finish(Outcome::WaitError)),
        },
        InitPhase::Sleeping { attempt } => if attempt + 1 < STARTUP_POLLS {
            (InitPhase::Polling { attempt: (attempt + 1) as u32 }, s, ActionView::CheckHealth)
        } else {
            (
                InitPhase::Finished,
                updated(
                    s,
                    ServerStatus::Error,
                    Ownership::SelfManaged,
                    s.pid,
                    "server startup timeout"@,
                ),
                ActionView::Finish(Outcome::NotReady),
            )
        },
        InitPhase::PersistReady => match e {
            LifecycleEvent::Persisted(ok) => (
                InitPhase::Finished,
                s,
                ActionView::Finish(persisted_outcome(ok)),
            ),
            _ => (InitPhase::Finished, s, ActionView::Finish(Outcome::PersistError)),
        },
        InitPhase::Finished => (InitPhase::Finished, s, ActionView::Finish(Outcome::Done)),
    }
}

fn persisted_outcome_exec(ok: bool) -> (r: Outcome)
    ensures
        r == persisted_outcome(ok),
{
    if ok {
        Outcome::Done
    } else {
        Outcome::PersistError
    }
}

impl InitPhase {
    /// Whether start-up expects `event` in this phase.
    pub fn accepts(&self, event: &LifecycleEvent) -> (r: bool)
        ensures
            r == init_accepts(*self, *event),
    {
        match self {
            InitPhase::Begin => matches!(event, LifecycleEvent::Start),
            InitPhase::AwaitHealth => matches!(event, LifecycleEvent::Health(_)),
            InitPhase::AwaitSpawn => matches!(event, LifecycleEvent::Spawned(_))
                || matches!(event, LifecycleEvent::SpawnFailed(_)),
            InitPhase::PersistExternal => matches!(event, LifecycleEvent::Persisted(_)),
            InitPhase::PersistSpawnFailure => matches!(event, LifecycleEvent::Persisted(_)),
            InitPhase::Polling { attempt } => matches!(event, LifecycleEvent::Health(_)) && *attempt
                < STARTUP_POLLS,
            InitPhase::AwaitExit { attempt } => matches!(event, LifecycleEvent::Waited(_))
                && *attempt < STARTUP_POLLS,
            InitPhase::Sleeping { attempt } => matches!(event, LifecycleEvent::Slept) && *attempt
                < STARTUP_POLLS,
            InitPhase::PersistReady => matches!(event, LifecycleEvent::Persisted(_)),
            InitPhase::Finished => false,
        }
    }

    /// One step of start-up (see `init_transition`).
    pub fn step(self, state: &mut ServerState, event: &LifecycleEvent) -> (r: (InitPhase, LifecycleAction))
        requires
            init_accepts(self, *event),
        ensures
            (r.0, final(state)@, r.1@) == init_transition(self, old(state)@, *event),
    {
        match self {
            InitPhase::Begin => {
                state.status = ServerStatus::Starting;
                state.message = Some(String::from_str("Checking local llama server"));
                (InitPhase::AwaitHealth, LifecycleAction::CheckHealth)
            },
            InitPhase::AwaitHealth => {
                if matches!(event, LifecycleEvent::Health(true)) {
                    state.update(
                        ServerStatus::Running,
                        Ownership::External,
                        None,
                        "external server detected",
                    );
                    (
                        InitPhase::PersistExternal,
                        LifecycleAction::Persist {
                            status: ServerStatus::Running,
                            ownership: Ownership::External,
                            pid: None,
                            message: None,
                            must_succeed: true,
                        },
                    )
                } else {
                    (InitPhase::AwaitSpawn, LifecycleAction::Spawn)
                }
            },
            InitPhase::AwaitSpawn => match event {
                LifecycleEvent::SpawnFailed(err) => {
                    let msg = String::from_str("failed to spawn llama server: ").concat(err.as_str());
                    state.update(ServerStatus::Error, Ownership::Unowned, None, msg.as_str());
                    (
                        InitPhase::PersistSpawnFailure,
                        LifecycleAction::Persist {
                            status: ServerStatus::Error,
                            ownership: Ownership::Unowned,
                            pid: None,
                            message: Some(String::from_str("llama-server command unavailable")),
                            must_succeed: false,
                        },
                    )
                },
                LifecycleEvent::Spawned(pid) => {
                    state.update(
                        ServerStatus::Starting,
                        Ownership::SelfManaged,
                        *pid,
                        "spawned local llama server",
                    );
                    (InitPhase::Polling { attempt: 0 }, LifecycleAction::CheckHealth)
                },
                _ => (InitPhase::Finished, LifecycleAction::Finish(Outcome::SpawnError)),
            },
            InitPhase::PersistExternal => match event {
                LifecycleEvent::Persisted(ok) => (
                    InitPhase::Finished,
                    LifecycleAction::Finish(persisted_outcome_exec(*ok)),
                ),
                _ => (InitPhase::Finished, LifecycleAction::Finish(Outcome::PersistError)),
            },
            InitPhase::PersistSpawnFailure => (
                InitPhase::Finished,
                LifecycleAction::Finish(Outcome::SpawnError),
            ),
            InitPhase::Polling { attempt } => {
                if matches!(event, LifecycleEvent::Health(true)) {
                    state.status = ServerStatus::Running;
                    state.message = Some(String::from_str("local server ready"));
                    state.has_child = true;
                    (
                        InitPhase::PersistReady,
                        LifecycleAction::Persist {
                            status: ServerStatus::Running,
                            ownership: Ownership::SelfManaged,
                            pid: state.pid,
                            message: None,
                            must_succeed: true,
                        },
                    )
                } else {
                    (InitPhase::AwaitExit { attempt }, LifecycleAction::TryWait)
                }
            },
            InitPhase::AwaitExit { attempt } => match event {
                LifecycleEvent::Waited(WaitOutcome::Running) => (
                    InitPhase::Sleeping { attempt },
                    LifecycleAction::Sleep,
                ),
                LifecycleEvent::Waited(WaitOutcome::Exited(_)) => {
                    let pid = state.pid;
                    state.update(
                        ServerStatus::Error,
                        Ownership::SelfManaged,
                        pid,
                        "server startup timeout",
                    );
                    (InitPhase::Finished, LifecycleAction::Finish(Outcome::NotReady))
                },
                _ => (InitPhase::Finished, LifecycleAction::Finish(Outcome::WaitError)),
            },
            InitPhase::Sleeping { attempt } => {
                if attempt + 1 < STARTUP_POLLS {
                    (InitPhase::Polling { attempt: attempt + 1 }, LifecycleAction::CheckHealth)
                } else {
                    let pid = state.pid;
                    state.update(
                        ServerStatus::Error,
                        Ownership::SelfManaged,
                        pid,
                        "server startup timeout",
                    );
                    (InitPhase::Finished, LifecycleAction::Finish(Outcome::NotReady))
                }
            },
            InitPhase::PersistReady => match event {
                LifecycleEvent::Persisted(ok) => (
                    InitPhase::Finished,
                    LifecycleAction::Finish(persisted_outcome_exec(*ok)),
                ),
                _ => (InitPhase::Finished, LifecycleAction::Finish(Outcome::PersistError)),
            },
            InitPhase::Finished => (InitPhase::Finished, LifecycleAction::Finish(Outcome::Done)),
        }
    }
}


/// Where shutdown stands.
#[derive(Debug, Clone, Copy, PartialEq, Eq, Structural)]
pub enum ShutdownPhase {
    Begin,
    Killing,
    AwaitExit { attempt: u32 },
    Sleeping { attempt: u32 },
    FinalCheck,
    ForceKilling,
    PersistStopped,
    Finished,
}

/// The events that shutdown expects in each phase.
pub open spec fn shutdown_accepts(p: ShutdownPhase, e: LifecycleEvent) -> bool {
    match p {
        ShutdownPhase::Begin => e is Start,
        ShutdownPhase::Killing => e is Killed,
        ShutdownPhase::AwaitExit { attempt } => e is Waited && attempt < SHUTDOWN_POLLS,
        ShutdownPhase::Sleeping { attempt } => e is Slept && attempt < SHUTDOWN_POLLS,
        ShutdownPhase::FinalCheck => e is Waited,
        ShutdownPhase::ForceKilling => e is Killed,
        ShutdownPhase::PersistStopped => e is Persisted,
        ShutdownPhase::Finished => false,
    }
}

/// The state once the server is stopped: owned by no one, no process id.
pub open spec fn stopped_state(s: ServerStateView) -> ServerStateView {
    updated(s, ServerStatus::Stopped, Ownership::Unowned, None, "server stopped"@)
}

/// The storage of the stopped state.
pub open spec fn persist_stopped() -> ActionView {
    ActionView::Persist {
        status: ServerStatus::Stopped,
        ownership: Ownership::Unowned,
        pid: None,
        message: None,
        must_succeed: true,
    }
}

/// One step of shutdown: nothing at all unless this application started the server; otherwise
/// ask the process to stop, check once a second up to `SHUTDOWN_POLLS` times whether it exited,
/// force it when it did not, and record and store the stopped state.
pub open spec fn shutdown_transition(p: ShutdownPhase, s: ServerStateView, e: LifecycleEvent) -> (
    ShutdownPhase,
    ServerStateView,
    ActionView,
) {
    match p {
        ShutdownPhase::Begin => if s.ownership != Ownership::SelfManaged {
            (ShutdownPhase::Finished, s, ActionView::Finish(Outcome::Done))
        } else if s.has_child {
            (
                ShutdownPhase::Killing,
                ServerStateView { status: ServerStatus::Stopping, has_child: false, ..s },
                ActionView::StartKill,
            )
        } else {
            (
                ShutdownPhase::PersistStopped,
                stopped_state(ServerStateView { status: ServerStatus::Stopping, ..s }),
                persist_stopped(),
            )
        },
        ShutdownPhase::Killing => (ShutdownPhase::AwaitExit { attempt: 0 }, s, ActionView::TryWait),
        ShutdownPhase::AwaitExit { attempt } => match e {
            LifecycleEvent::Waited(WaitOutcome::Exited(_)) => (
                ShutdownPhase::FinalCheck,
                s,
                ActionView::TryWait,
            ),
            LifecycleEvent::Waited(WaitOutcome::Running) => (
                ShutdownPhase::Sleeping { attempt },
                s,
                ActionView::Sleep,
            ),
            _ => (ShutdownPhase::Finished, s, ActionView::Finish(Outcome::WaitError)),
        },
        ShutdownPhase::Sleeping { attempt } => if attempt + 1 < SHUTDOWN_POLLS {
            (ShutdownPhase::AwaitExit { attempt: (attempt + 1) as u32 }, s, ActionView::TryWait)
        } else {
            (ShutdownPhase::FinalCheck, s, ActionView::TryWait)
        },
        ShutdownPhase::FinalCheck => match e {
            LifecycleEvent::Waited(WaitOutcome::Exited(_)) => (
                ShutdownPhase::PersistStopped,
                stopped_state(s),
                persist_stopped(),
            ),
            LifecycleEvent::Waited(WaitOutcome::Running) => (
                ShutdownPhase::ForceKilling,
                s,
                ActionView::ForceKill,
            ),
            _ => (ShutdownPhase::Finished, s, ActionView::Finish(Outcome::WaitError)),
        },
        ShutdownPhase::ForceKilling => (
            ShutdownPhase::PersistStopped,
            stopped_state(s),
            persist_stopped(),
        ),
        ShutdownPhase::PersistStopped => match e {
            LifecycleEvent::Persisted(ok) => (
                ShutdownPhase::Finished,
                s,
                ActionView::Finish(persisted_outcome(ok)),
            ),
            _ => (ShutdownPhase::Finished, s, ActionView::Finish(Outcome::PersistError)),
        },
        ShutdownPhase::Finished => (ShutdownPhase::Finished, s, ActionView::Finish(Outcome::Done)),
    }
}

fn persist_stopped_exec() -> (r: LifecycleAction)
    ensures
        r@ == persist_stopped(),
{
    LifecycleAction::Persist {
        status: ServerStatus::Stopped,
        ownership: Ownership::Unowned,
        pid: None,
        message: None,
        must_succeed: true,
    }
}

impl ShutdownPhase {
    /// Whether shutdown expects `event` in this phase.
    pub fn accepts(&self, event: &LifecycleEvent) -> (r: bool)
        ensures
            r == shutdown_accepts(*self, *event),
    {
        match self {
            ShutdownPhase::Begin => matches!(event, LifecycleEvent::Start),
            ShutdownPhase::Killing => matches!(event, LifecycleEvent::Killed),
            ShutdownPhase::AwaitExit { attempt } => matches!(event, LifecycleEvent::Waited(_))
                && *attempt < SHUTDOWN_POLLS,
            ShutdownPhase::Sleeping { attempt } => matches!(event, LifecycleEvent::Slept)
                && *attempt < SHUTDOWN_POLLS,
            ShutdownPhase::FinalCheck => matches!(event, LifecycleEvent::Waited(_)),
            ShutdownPhase::ForceKilling => matches!(event, LifecycleEvent::Killed),
            ShutdownPhase::PersistStopped => matches!(event, LifecycleEvent::Persisted(_)),
            ShutdownPhase::Finished => false,
        }
    }

    /// One step of shutdown (see `shutdown_transition`).
    pub fn step(self, state: &mut ServerState, event: &LifecycleEvent) -> (r: (ShutdownPhase, LifecycleAction))
        requires
            shutdown_accepts(self, *event),
        ensures
            (r.0, final(state)@, r.1@) == shutdown_transition(self, old(state)@, *event),
    {
        match self {
            ShutdownPhase::Begin => {
                if state.ownership != Ownership::SelfManaged {
                    (ShutdownPhase::Finished, LifecycleAction::Finish(Outcome::Done))
                } else if state.has_child {
                    state.status = ServerStatus::Stopping;
                    state.has_child = false;
                    (ShutdownPhase::Killing, LifecycleAction::StartKill)
                } else {
                    state.status = ServerStatus::Stopping;
                    state.update(ServerStatus::Stopped, Ownership::Unowned, None, "server stopped");
                    (ShutdownPhase::PersistStopped, persist_stopped_exec())
                }
            },
            ShutdownPhase::Killing => (
                ShutdownPhase::AwaitExit { attempt: 0 },
                LifecycleAction::TryWait,
            ),
            ShutdownPhase::AwaitExit { attempt } => match event {
                LifecycleEvent::Waited(WaitOutcome::Exited(_)) => (
                    ShutdownPhase::FinalCheck,
                    LifecycleAction::TryWait,
                ),
                LifecycleEvent::Waited(WaitOutcome::Running) => (
                    ShutdownPhase::Sleeping { attempt },
                    LifecycleAction::Sleep,
                ),
                _ => (ShutdownPhase::Finished, LifecycleAction::Finish(Outcome::WaitError)),
            },
            ShutdownPhase::Sleeping { attempt } => {
                if attempt + 1 < SHUTDOWN_POLLS {
                    (ShutdownPhase::AwaitExit { attempt: attempt + 1 }, LifecycleAction::TryWait)
                } else {
                    (ShutdownPhase::FinalCheck, LifecycleAction::TryWait)
                }
            },
            ShutdownPhase::FinalCheck => match event {
                LifecycleEvent::Waited(WaitOutcome::Exited(_)) => {
                    state.update(ServerStatus::Stopped, Ownership::Unowned, None, "server stopped");
                    (ShutdownPhase::PersistStopped, persist_stopped_exec())
                },
                LifecycleEvent::Waited(WaitOutcome::Running) => (
                    ShutdownPhase::ForceKilling,
                    LifecycleAction::ForceKill,
                ),
                _ => (ShutdownPhase::Finished, LifecycleAction::Finish(Outcome::WaitError)),
            },
            ShutdownPhase::ForceKilling => {
                state.update(ServerStatus::Stopped, Ownership::Unowned, None, "server stopped");
                (ShutdownPhase::PersistStopped, persist_stopped_exec())
            },
            ShutdownPhase::PersistStopped => match event {
                LifecycleEvent::Persisted(ok) => (
                    ShutdownPhase::Finished,
                    LifecycleAction::Finish(persisted_outcome_exec(*ok)),
                ),
                _ => (ShutdownPhase::Finished, LifecycleAction::Finish(Outcome::PersistError)),
            },
            ShutdownPhase::Finished => (
                ShutdownPhase::Finished,
                LifecycleAction::Finish(Outcome::Done),
            ),
        }
    }
}

/// What checking a started server for a crash does to the state.
pub open spec fn crash_transition(s: ServerStateView, w: WaitOutcome) -> (ServerStateView, Option<ActionView>) {
    if s.ownership == Ownership::SelfManaged && s.has_child {
        match w {
            WaitOutcome::Exited(status) => (
                ServerStateView {
                    status: ServerStatus::Error,
                    message: Some("server crashed: "@ + status@),
                    has_child: false,
                    ..s
                },
                Some(
                    ActionView::Persist {
                        status: ServerStatus::Error,
                        ownership: Ownership::SelfManaged,
                        pid: None,
                        message: Some("crash detected"@),
                        must_succeed: false,
                    },
                ),
            ),
            _ => (s, None),
        }
    } else {
        (s, None)
    }
}

/// The view of an optional action.
pub open spec fn opt_action(a: Option<LifecycleAction>) -> Option<ActionView> {
    match a {
        Some(x) => Some(x@),
        None => None,
    }
}

impl ServerState {
    /// Whether a status report must first check the started process for a crash: only for a
    /// server this application started and still holds.
    pub fn needs_crash_check(&self) -> (r: bool)
        ensures
            r == (self.ownership == Ownership::SelfManaged && self.has_child),
    {
        self.ownership == Ownership::SelfManaged && self.has_child
    }

    /// Records what the process check answered: a process that exited is a crash, recorded as an
    /// error with its exit status, and the storage of that error is the work to do.
    pub fn record_crash_check(&mut self, outcome: &WaitOutcome) -> (r: Option<LifecycleAction>)
        ensures
            (final(self)@, opt_action(r)) == crash_transition(old(self)@, *outcome),
    {
        if self.ownership == Ownership::SelfManaged && self.has_child {
            match outcome {
                WaitOutcome::Exited(status) => {
                    self.status = ServerStatus::Error;
                    self.message = Some(String::from_str("server crashed: ").concat(status.as_str()));
                    self.has_child = false;
                    Some(
                        LifecycleAction::Persist {
                            status: ServerStatus::Error,
                            ownership: Ownership::SelfManaged,
                            pid: None,
                            message: Some(String::from_str("crash detected")),
                            must_succeed: false,
                        },
                    )
                },
                _ => None,
            }
        } else {
            None
        }
    }
}


/// A healthy server is reused: start-up that finds the endpoint healthy records it as external
/// and stores that, and start-up asks to start a process only right after an unhealthy answer.
pub proof fn lemma_reuse_healthy_server(p: InitPhase, s: ServerStateView, e: LifecycleEvent)
    ensures
        ({
            let (np, ns, a) = init_transition(InitPhase::AwaitHealth, s, LifecycleEvent::Health(true));
            &&& ns.ownership == Ownership::External
            &&& ns.status == ServerStatus::Running
            &&& np == InitPhase::PersistExternal
            &&& !(a is Spawn)
        }),
        init_transition(p, s, e).2 is Spawn ==> p == InitPhase::AwaitHealth && e
            != LifecycleEvent::Health(true),
{
}

/// Only a server this application started is stopped: shutdown of any other server changes
/// nothing and does no work, and a kill is requested only for a started process it holds.
pub proof fn lemma_shutdown_only_when_self_managed(p: ShutdownPhase, s: ServerStateView, e: LifecycleEvent)
    ensures
        s.ownership != Ownership::SelfManaged ==> shutdown_transition(
            ShutdownPhase::Begin,
            s,
            LifecycleEvent::Start,
        ) == (ShutdownPhase::Finished, s, ActionView::Finish(Outcome::Done)),
        shutdown_transition(p, s, e).2 is StartKill ==> p == ShutdownPhase::Begin && s.ownership
            == Ownership::SelfManaged && s.has_child,
{
}

/// Whenever shutdown records its result, the server is stopped and owned by no one, and that
/// state is what it stores.
pub proof fn lemma_shutdown_records_stopped(p: ShutdownPhase, s: ServerStateView, e: LifecycleEvent)
    ensures
        ({
            let (np, ns, a) = shutdown_transition(p, s, e);
            np == ShutdownPhase::PersistStopped ==> ns.status == ServerStatus::Stopped && ns.ownership
                == Ownership::Unowned && ns.pid is None && a == persist_stopped()
        }),
{
}

/// The application stops the server on exit exactly when the reported ownership is that of a
/// server it started.
pub proof fn lemma_exit_shutdown_matches_ownership(o: Ownership)
    ensures
        (ownership_text(o) == "self"@) <==> (o == Ownership::SelfManaged),
{
    reveal_strlit("self");
    reveal_strlit("none");
    reveal_strlit("external");
    if o == Ownership::Unowned {
        assert(ownership_text(o)[0] != "self"@[0]);
    } else if o == Ownership::External {
        assert(ownership_text(o).len() != "self"@.len());
    }
}

/// A status report changes nothing unless this application started the server and holds it.
pub proof fn lemma_crash_check_only_for_started(s: ServerStateView, w: WaitOutcome)
    ensures
        !(s.ownership == Ownership::SelfManaged && s.has_child) ==> crash_transition(s, w) == (
            s,
            None::<ActionView>,
        ),
        crash_transition(s, w).0.ownership == s.ownership,
{
}

/// How many steps at most start-up has left from a phase.
pub open spec fn init_rank(p: InitPhase) -> int {
    match p {
        InitPhase::Begin => 3 * STARTUP_POLLS + 5,
        InitPhase::AwaitHealth => 3 * STARTUP_POLLS + 4,
        InitPhase::AwaitSpawn => 3 * STARTUP_POLLS + 3,
        InitPhase::Polling { attempt } => 3 * (STARTUP_POLLS - attempt) + 2,
        InitPhase::AwaitExit { attempt } => 3 * (STARTUP_POLLS - attempt) + 1,
        InitPhase::Sleeping { attempt } => 3 * (STARTUP_POLLS - attempt),
        InitPhase::PersistExternal => 1,
        InitPhase::PersistSpawnFailure => 1,
        InitPhase::PersistReady => 1,
        InitPhase::Finished => 0,
    }
}

/// Start-up always ends: every accepted event brings it closer to its end, so it polls the
/// server's health at most `STARTUP_POLLS` times after starting it.
pub proof fn lemma_init_terminates(p: InitPhase, s: ServerStateView, e: LifecycleEvent)
    requires
        init_accepts(p, e),
    ensures
        init_rank(p) > 0,
        0 <= init_rank(init_transition(p, s, e).0) < init_rank(p),
{
}

/// How many steps at most shutdown has left from a phase.
pub open spec fn shutdown_rank(p: ShutdownPhase) -> int {
    match p {
        ShutdownPhase::Begin => 2 * SHUTDOWN_POLLS + 5,
        ShutdownPhase::Killing => 2 * SHUTDOWN_POLLS + 4,
        ShutdownPhase::AwaitExit { attempt } => 2 * (SHUTDOWN_POLLS - attempt) + 3,
        ShutdownPhase::Sleeping { attempt } => 2 * (SHUTDOWN_POLLS - attempt) + 2,
        ShutdownPhase::FinalCheck => 3,
        ShutdownPhase::ForceKilling => 2,
        ShutdownPhase::PersistStopped => 1,
        ShutdownPhase::Finished => 0,
    }
}

/// Shutdown always ends: every accepted event brings it closer to its end, so it waits at most
/// `SHUTDOWN_POLLS` times for the process before forcing it.
pub proof fn lemma_shutdown_terminates(p: ShutdownPhase, s: ServerStateView, e: LifecycleEvent)
    requires
        shutdown_accepts(p, e),
    ensures
        shutdown_rank(p) > 0,
        0 <= shutdown_rank(shutdown_transition(p, s, e).0) < shutdown_rank(p),
{
}

/// Shutdown of a server this application started always goes through recording and storing it
/// as stopped and unowned: it never finishes at once, whether or not the process is still held;
/// it finishes successfully only right after that state was stored; and the state it stores and
/// records is stopped, unowned and without a process id.
pub proof fn lemma_owned_shutdown_ends_stopped(p: ShutdownPhase, s: ServerStateView, e: LifecycleEvent)
    requires
        shutdown_accepts(p, e),
    ensures
        ({
            let (np, ns, a) = shutdown_transition(p, s, e);
            &&& p == ShutdownPhase::Begin && s.ownership == Ownership::SelfManaged ==> np
                != ShutdownPhase::Finished
            &&& a == ActionView::Finish(Outcome::Done) ==> (p == ShutdownPhase::Begin && s.ownership
                != Ownership::SelfManaged) || p == ShutdownPhase::PersistStopped
            &&& np == ShutdownPhase::PersistStopped ==> ns.status == ServerStatus::Stopped
                && ns.ownership == Ownership::Unowned && ns.pid is None && (a matches ActionView::Persist {
                status,
                ownership,
                pid,
                ..
            } && status == ServerStatus::Stopped && ownership == Ownership::Unowned && pid is None)
            &&& p == ShutdownPhase::PersistStopped ==> ns == s
        }),
{
}

} // verus!
