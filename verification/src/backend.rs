//! One backend process: how it is started, what is sent to it, what it answers, and how it is
//! shut down. The process, its pipes and the clock are on the caller's side; this is the state
//! that goes with them and every decision about it.

use crate::config::{Config, ConfigView};
use crate::error::ProxyError;
use crate::jsonrpc::{JsonRpcId, JsonRpcRequest, JsonRpcResponse};
use crate::path::{part_views, FilePath};
use crate::pending::{
    delivered, everyone_told, id_after, next_proxy_id, to_wire, wire_number, wire_number_reads_back, Delivery, PendingRequest,
    PendingTable, ProxyIdCounter,
};
use crate::pipeline::{ReaderAction, ReaderEvent};
use crate::text::{concat, decimal, u64_to_text};
use vstd::prelude::*;
use vstd::utf8::*;

verus! {

/// The state of a backend.
#[derive(Debug, Clone, Copy, PartialEq, Eq, Structural)]
pub enum BackendState {
    Ready,
    Stopping,
    Dead,
}

/// A backend. The type `T` is that of the place where a waiting client takes its answer.
pub struct BackendInstance<T> {
    /// The workspace root that it serves.
    pub root: FilePath,
    pub state: BackendState,
    /// When it was last used, in milliseconds on the caller's clock.
    pub last_used: u64,
    /// Whether there is a process.
    pub has_child: bool,
    /// Whether messages can be sent to the process.
    pub stdin_open: bool,
    /// The requests that wait for an answer.
    pub pending: PendingTable<T>,
    /// Seconds that an answer may take.
    pub request_timeout_seconds: u64,
    /// What a restart starts from.
    pub config: Config,
    /// Whether a task writes to the process.
    pub writer_running: bool,
    /// Whether a task reads from the process.
    pub reader_running: bool,
    /// The id of the process.
    pub child_pid: Option<u32>,
    /// Whether its process is kept in a process group.
    pub in_group: bool,
}

/// What a [`BackendInstance`] holds.
#[verifier::ext_equal]
pub struct BackendView<T> {
    pub root: Seq<u8>,
    pub state: BackendState,
    pub last_used: u64,
    pub has_child: bool,
    pub stdin_open: bool,
    pub pending: Map<u64, PendingRequest<T>>,
    pub request_timeout_seconds: u64,
    pub config: ConfigView,
    pub writer_running: bool,
    pub reader_running: bool,
    pub child_pid: Option<u32>,
    pub in_group: bool,
}

impl<T> BackendView<T> {
    /// The pipes and their tasks live as long as the process, and the time that an answer may
    /// take is the configured one.
    pub open spec fn well_formed(self) -> bool {
        &&& self.stdin_open == self.has_child
        &&& self.writer_running == self.has_child
        &&& self.reader_running == self.has_child
        &&& self.request_timeout_seconds == self.config.request_timeout_seconds
    }
}

impl<T> View for BackendInstance<T> {
    type V = BackendView<T>;

    open spec fn view(&self) -> BackendView<T> {
        BackendView {
            root: self.root@,
            state: self.state,
            last_used: self.last_used,
            has_child: self.has_child,
            stdin_open: self.stdin_open,
            pending: self.pending@,
            request_timeout_seconds: self.request_timeout_seconds,
            config: self.config@,
            writer_running: self.writer_running,
            reader_running: self.reader_running,
            child_pid: self.child_pid,
            in_group: self.in_group,
        }
    }
}

/// Where a standard stream of a process leads.
#[derive(Debug, Clone, Copy, PartialEq, Eq, Structural)]
pub enum StreamSetup {
    /// To the proxy.
    Piped,
    /// Where that of the proxy leads.
    Inherited,
}

/// The flag with which a process is created on Windows: it gets no console window.
pub const CREATE_NO_WINDOW: u32 = 0x08000000;

/// How a backend process is started.
pub struct BackendCommand {
    /// The executable.
    pub program: FilePath,
    /// The arguments, as bytes.
    pub args: Vec<Vec<u8>>,
    /// Variables set in its environment.
    pub env: Vec<(String, String)>,
    pub stdin: StreamSetup,
    pub stdout: StreamSetup,
    pub stderr: StreamSetup,
}

/// The arguments that the backend of `root` is started with.
pub open spec fn command_args(entry: Seq<u8>, mode: Seq<char>, root: Seq<u8>) -> Seq<Seq<u8>> {
    seq![
        entry,
        encode_utf8("--mcp"@),
        encode_utf8("-m"@),
        encode_utf8(mode),
        encode_utf8("--workspace-root"@),
        root,
    ]
}

/// Why no backend can be started with `config`, if none can.
pub open spec fn command_problem(config: ConfigView) -> Option<Seq<char>> {
    if config.node is None {
        Some("Node path not configured"@)
    } else if config.auggie_entry is None {
        Some("Auggie entry path not configured"@)
    } else {
        None
    }
}

/// What came of starting a process.
pub enum SpawnOutcome {
    /// It could not be started, for the reason given.
    Failed(String),
    /// It runs.
    Started {
        /// Its id, unless it is already gone.
        pid: Option<u32>,
        /// Whether its standard input could be had.
        stdin: bool,
        /// Whether its standard output could be had.
        stdout: bool,
    },
}

/// Why a start failed with `outcome`, if it did.
pub open spec fn spawn_problem(outcome: SpawnOutcome) -> Option<Seq<char>> {
    match outcome {
        SpawnOutcome::Failed(reason) => Some("Failed to spawn backend: "@ + reason@),
        SpawnOutcome::Started { pid, stdin, stdout } => if !stdin {
            Some("Failed to get stdin handle"@)
        } else if !stdout {
            Some("Failed to get stdout handle"@)
        } else {
            None
        },
    }
}

/// A backend as it is when its process has just started.
pub open spec fn fresh_backend<T>(
    config: ConfigView,
    root: Seq<u8>,
    outcome: SpawnOutcome,
    in_group: bool,
    now: u64,
) -> BackendView<T> {
    BackendView {
        root,
        state: BackendState::Ready,
        last_used: now,
        has_child: true,
        stdin_open: true,
        pending: Map::empty(),
        request_timeout_seconds: config.request_timeout_seconds,
        config,
        writer_running: true,
        reader_running: true,
        child_pid: outcome->pid,
        in_group,
    }
}

/// `e` is the error for starting a backend with `config` when that gave `outcome`, if there is
/// one.
pub open spec fn is_spawn_error(e: ProxyError, config: ConfigView, outcome: SpawnOutcome) -> bool {
    match command_problem(config) {
        Some(problem) => e is ConfigError && e.text() == problem,
        None => e is BackendSpawnFailed && spawn_problem(outcome) == Some(e.text()),
    }
}

impl<T> BackendInstance<T> {
    /// How the backend process of `root` is started.
    pub fn build_command(config: &Config, root: &FilePath) -> (res: Result<
        BackendCommand,
        ProxyError,
    >)
        ensures
            match res {
                Ok(command) => {
                    &&& command_problem(config@) is None
                    &&& command.program@ == config@.node.unwrap()
                    &&& part_views(command.args@) == command_args(
                        config@.auggie_entry.unwrap(),
                        config@.mode,
                        root@,
                    )
                    &&& command.env@.len() == 1
                    &&& command.env@[0].0@ == "AUGMENT_DISABLE_AUTO_UPDATE"@
                    &&& command.env@[0].1@ == "1"@
                    &&& command.stdin == StreamSetup::Piped
                    &&& command.stdout == StreamSetup::Piped
                    &&& command.stderr == StreamSetup::Inherited
                },
                Err(e) => e is ConfigError && command_problem(config@) == Some(e.text()),
            },
    {
        let node = match &config.node {
            Some(node) => node.clone(),
            None => {
                return Err(ProxyError::ConfigError("Node path not configured".to_string()));
            },
        };
        let entry = match &config.auggie_entry {
            Some(entry) => entry.clone(),
            None => {
                return Err(
                    ProxyError::ConfigError("Auggie entry path not configured".to_string()),
                );
            },
        };
        let mut args: Vec<Vec<u8>> = Vec::new();
        args.push(entry.bytes);
        args.push(FilePath::from_text("--mcp").bytes);
        args.push(FilePath::from_text("-m").bytes);
        args.push(FilePath::from_text(config.mode.as_str()).bytes);
        args.push(FilePath::from_text("--workspace-root").bytes);
        args.push(root.clone().bytes);
        proof {
            assert(part_views(args@) =~= command_args(
                config@.auggie_entry.unwrap(),
                config@.mode,
                root@,
            ));
        }
        let mut env: Vec<(String, String)> = Vec::new();
        env.push(("AUGMENT_DISABLE_AUTO_UPDATE".to_string(), "1".to_string()));
        Ok(
            BackendCommand {
                program: node,
                args,
                env,
                stdin: StreamSetup::Piped,
                stdout: StreamSetup::Piped,
                stderr: StreamSetup::Inherited,
            },
        )
    }

    /// The backend of `root`, once starting its process gave `outcome`.
    pub fn spawn(
        config: &Config,
        root: FilePath,
        outcome: SpawnOutcome,
        in_group: bool,
        now: u64,
    ) -> (res: Result<BackendInstance<T>, ProxyError>)
        ensures
            match res {
                Ok(backend) => {
                    &&& command_problem(config@) is None
                    &&& spawn_problem(outcome) is None
                    &&& backend@ == fresh_backend::<T>(config@, root@, outcome, in_group, now)
                    &&& backend@.well_formed()
                },
                Err(e) => is_spawn_error(e, config@, outcome),
            },
    {
        match Self::build_command(config, &root) {
            Ok(_) => {},
            Err(e) => {
                return Err(e);
            },
        }
        let pid: Option<u32> = match outcome {
            SpawnOutcome::Failed(reason) => {
                let message = concat("Failed to spawn backend: ", reason.as_str());
                return Err(ProxyError::BackendSpawnFailed(message));
            },
            SpawnOutcome::Started { pid, stdin, stdout } => {
                if !stdin {
                    return Err(
                        ProxyError::BackendSpawnFailed("Failed to get stdin handle".to_string()),
                    );
                }
                if !stdout {
                    return Err(
                        ProxyError::BackendSpawnFailed("Failed to get stdout handle".to_string()),
                    );
                }
                pid
            },
        };
        Ok(
            BackendInstance {
                root,
                state: BackendState::Ready,
                last_used: now,
                has_child: true,
                stdin_open: true,
                pending: PendingTable::new(),
                request_timeout_seconds: config.request_timeout_seconds,
                config: config.clone(),
                writer_running: true,
                reader_running: true,
                child_pid: pid,
                in_group,
            },
        )
    }
}

/// What came of a request that was handed over for sending.
pub enum RequestOutcome<P> {
    /// It could not be written as JSON, for the reason given.
    NotWritten(String),
    /// It could not be sent, for the reason given.
    NotSent(String),
    /// Its answer.
    Response(JsonRpcResponse<P>),
    /// The place for its answer was given up by the other side.
    Closed,
    /// No answer came in time.
    TimedOut,
}

/// What came of a notification that was handed over for sending.
pub enum NotificationOutcome {
    /// It could not be written as JSON, for the reason given.
    NotWritten(String),
    /// It could not be sent, for the reason given.
    NotSent(String),
    /// It was sent.
    Sent,
}

/// `result` and `after` are what the end of the request `proxy_id` gives. An answer is handed on;
/// a backend that gave up on the request is dead; a request that ended without an answer waits no
/// longer. One that never went out is left waiting.
pub open spec fn request_ended<T, P>(
    before: BackendView<T>,
    proxy_id: u64,
    outcome: RequestOutcome<P>,
    result: Result<JsonRpcResponse<P>, ProxyError>,
    after: BackendView<T>,
) -> bool {
    match outcome {
        RequestOutcome::NotWritten(reason) => {
            &&& result matches Err(ProxyError::JsonError(message)) && message@ == reason@
            &&& after == before
        },
        RequestOutcome::NotSent(reason) => {
            &&& result matches Err(ProxyError::BackendUnavailable(message)) && message@
                == "Failed to send to backend: "@ + reason@
            &&& after == before
        },
        RequestOutcome::Response(response) => {
            &&& result == Ok::<JsonRpcResponse<P>, ProxyError>(response)
            &&& after == before
        },
        RequestOutcome::Closed => {
            &&& result matches Err(ProxyError::BackendUnavailable(message)) && message@
                == "Backend response channel closed"@
            &&& after == (BackendView {
                state: BackendState::Dead,
                pending: before.pending.remove(proxy_id),
                ..before
            })
        },
        RequestOutcome::TimedOut => {
            &&& result matches Err(ProxyError::BackendTimeout(message)) && message@
                == "Request timed out after "@ + decimal(before.request_timeout_seconds as nat)
                + " seconds"@
            &&& after == (BackendView { pending: before.pending.remove(proxy_id), ..before })
        },
    }
}

/// Ends a notification with what came of it.
pub fn finish_notification(outcome: NotificationOutcome) -> (res: Result<(), ProxyError>)
    ensures
        match outcome {
            NotificationOutcome::NotWritten(reason) => res matches Err(
                ProxyError::JsonError(message),
            ) && message@ == reason@,
            NotificationOutcome::NotSent(reason) => res matches Err(
                ProxyError::BackendUnavailable(message),
            ) && message@ == "Failed to send to backend: "@ + reason@,
            NotificationOutcome::Sent => res is Ok,
        },
{
    match outcome {
        NotificationOutcome::NotWritten(reason) => Err(ProxyError::JsonError(reason)),
        NotificationOutcome::NotSent(reason) => {
            let message = concat("Failed to send to backend: ", reason.as_str());
            Err(ProxyError::BackendUnavailable(message))
        },
        NotificationOutcome::Sent => Ok(()),
    }
}

impl<T> BackendInstance<T> {
    /// Takes a request for this backend. The result is its proxy id and the message to send, which
    /// is the request under that id; `reply` waits for the answer from then on.
    pub fn send_request<P>(
        &mut self,
        counter: &mut ProxyIdCounter,
        request: JsonRpcRequest<P>,
        reply: T,
        now: u64,
    ) -> (res: Result<(u64, JsonRpcRequest<P>), ProxyError>)
        ensures
            old(self)@.well_formed() ==> final(self)@.well_formed(),
            match res {
                Ok((proxy_id, message)) => {
                    &&& old(self)@.stdin_open
                    &&& request.id is Some
                    &&& proxy_id == old(counter).upcoming()
                    &&& final(counter).upcoming() == id_after(proxy_id)
                    &&& message == (JsonRpcRequest {
                        id: Some(JsonRpcId::Number(wire_number(proxy_id))),
                        ..request
                    })
                    &&& final(self)@ == (BackendView {
                        last_used: now,
                        pending: old(self)@.pending.insert(
                            proxy_id,
                            PendingRequest { client_id: request.id, reply },
                        ),
                        ..old(self)@
                    })
                },
                Err(e) => {
                    &&& final(self)@ == (BackendView { last_used: now, ..old(self)@ })
                    &&& final(counter).upcoming() == old(counter).upcoming()
                    &&& if !old(self)@.stdin_open {
                        e is BackendUnavailable && e.text() == "Backend stdin not available"@
                    } else {
                        request.id is None && e is RoutingFailed && e.text()
                            == "send_request called with notification (id is None)"@
                    }
                },
            },
    {
        self.last_used = now;
        if !self.stdin_open {
            return Err(
                ProxyError::BackendUnavailable("Backend stdin not available".to_string()),
            );
        }
        if request.is_notification() {
            return Err(
                ProxyError::RoutingFailed(
                    "send_request called with notification (id is None)".to_string(),
                ),
            );
        }
        let proxy_id: u64 = next_proxy_id(counter);
        let mut message = request;
        let client_id = message.id;
        message.id = Some(JsonRpcId::Number(to_wire(proxy_id)));
        self.pending.insert(proxy_id, PendingRequest { client_id, reply });
        Ok((proxy_id, message))
    }

    /// Ends the request `proxy_id` with what came of it.
    pub fn finish_request<P>(&mut self, proxy_id: u64, outcome: RequestOutcome<P>) -> (res: Result<
        JsonRpcResponse<P>,
        ProxyError,
    >)
        ensures
            old(self)@.well_formed() ==> final(self)@.well_formed(),
            request_ended(old(self)@, proxy_id, outcome, res, final(self)@),
    {
        match outcome {
            RequestOutcome::NotWritten(reason) => Err(ProxyError::JsonError(reason)),
            RequestOutcome::NotSent(reason) => {
                let message = concat("Failed to send to backend: ", reason.as_str());
                Err(ProxyError::BackendUnavailable(message))
            },
            RequestOutcome::Response(response) => Ok(response),
            RequestOutcome::Closed => {
                self.pending.remove(proxy_id);
                self.state = BackendState::Dead;
                Err(ProxyError::BackendUnavailable("Backend response channel closed".to_string()))
            },
            RequestOutcome::TimedOut => {
                self.pending.remove(proxy_id);
                let seconds = u64_to_text(self.request_timeout_seconds);
                let start = concat("Request timed out after ", seconds.as_str());
                Err(ProxyError::BackendTimeout(concat(start.as_str(), " seconds")))
            },
        }
    }

    /// Takes a notification for this backend; `Ok` means that it is to be sent as it is.
    pub fn send_notification<P>(&mut self, notification: &JsonRpcRequest<P>, now: u64) -> (res:
        Result<(), ProxyError>)
        ensures
            old(self)@.well_formed() ==> final(self)@.well_formed(),
            final(self)@ == (BackendView { last_used: now, ..old(self)@ }),
            match res {
                Ok(_) => notification.id is None && old(self)@.stdin_open,
                Err(e) => if notification.id is Some {
                    e is RoutingFailed && e.text()
                        == "send_notification called with request (id is Some)"@
                } else {
                    !old(self)@.stdin_open && e is BackendUnavailable && e.text()
                        == "Backend stdin not available"@
                },
            },
    {
        self.last_used = now;
        if !notification.is_notification() {
            return Err(
                ProxyError::RoutingFailed(
                    "send_notification called with request (id is Some)".to_string(),
                ),
            );
        }
        if !self.stdin_open {
            return Err(
                ProxyError::BackendUnavailable("Backend stdin not available".to_string()),
            );
        }
        Ok(())
    }

    /// Finds whom an answer of the backend is for.
    pub fn deliver_response<P>(&mut self, response: JsonRpcResponse<P>) -> (res: Delivery<T, P>)
        ensures
            old(self)@.well_formed() ==> final(self)@.well_formed(),
            delivered(old(self)@.pending, response, res, final(self)@.pending),
            final(self)@ == (BackendView { pending: final(self)@.pending, ..old(self)@ }),
    {
        self.pending.deliver(response)
    }

    /// Answers every waiting request once the backend prints no more: its process is gone.
    pub fn fail_all_pending<P>(&mut self) -> (res: Vec<(T, JsonRpcResponse<P>)>)
        ensures
            old(self)@.well_formed() ==> final(self)@.well_formed(),
            everyone_told(old(self)@.pending, res@),
            final(self)@ == (BackendView { pending: Map::empty(), ..old(self)@ }),
    {
        self.pending.fail_all()
    }

    /// Whether any request waits for an answer.
    pub fn has_pending(&self) -> (res: bool)
        ensures
            res == (self@.pending != Map::<u64, PendingRequest<T>>::empty()),
    {
        !self.pending.is_empty()
    }

    /// Whether the backend is dead.
    pub fn is_dead(&self) -> (res: bool)
        ensures
            res == (self@.state == BackendState::Dead),
    {
        self.state == BackendState::Dead
    }
}

/// What asking after a process gave.
#[derive(Debug, Clone, Copy, PartialEq, Eq, Structural)]
pub enum ProcessStatus {
    /// It has exited.
    Exited,
    /// It still runs.
    Running,
    /// It could not be found out.
    Unknown,
}

/// The backend once its process was asked after: one whose process has exited is dead.
pub open spec fn asked_after<T>(b: BackendView<T>, status: ProcessStatus) -> BackendView<T> {
    if b.has_child && status == ProcessStatus::Exited {
        BackendView { state: BackendState::Dead, ..b }
    } else {
        b
    }
}

/// Whether the process of the backend is alive.
pub open spec fn process_alive<T>(b: BackendView<T>, status: ProcessStatus) -> bool {
    b.has_child && status == ProcessStatus::Running
}

impl<T> BackendInstance<T> {
    /// Whether the process is alive, where there is one; `status` is what asking after it gave.
    pub fn is_process_alive(&mut self, status: ProcessStatus) -> (res: bool)
        ensures
            old(self)@.well_formed() ==> final(self)@.well_formed(),
            res == process_alive(old(self)@, status),
            final(self)@ == asked_after(old(self)@, status),
    {
        if self.has_child {
            match status {
                ProcessStatus::Exited => {
                    self.state = BackendState::Dead;
                    false
                },
                ProcessStatus::Running => true,
                ProcessStatus::Unknown => false,
            }
        } else {
            false
        }
    }

    /// Whether the backend can be used: its process is alive, it is not dead, and messages can be
    /// sent to it. One that cannot be sent to is dead.
    pub fn health_check(&mut self, status: ProcessStatus) -> (res: bool)
        ensures
            old(self)@.well_formed() ==> final(self)@.well_formed(),
            res == (process_alive(old(self)@, status) && old(self)@.state != BackendState::Dead
                && old(self)@.stdin_open),
            final(self)@ == (if process_alive(old(self)@, status) && !old(self)@.stdin_open {
                BackendView { state: BackendState::Dead, ..old(self)@ }
            } else {
                asked_after(old(self)@, status)
            }),
    {
        if !self.is_process_alive(status) {
            return false;
        }
        if self.state == BackendState::Dead {
            return false;
        }
        if !self.stdin_open {
            self.state = BackendState::Dead;
            return false;
        }
        true
    }
}

/// What to do about a process.
#[derive(Debug, Clone, Copy, PartialEq, Eq, Structural)]
pub enum ProcessAction {
    /// Put it into the process group, or on Windows into the job object.
    JoinGroup(u32),
    /// Set its nice value.
    Renice(u32, i32),
    /// Give it the priority below normal.
    BelowNormal(u32),
    /// Bind it to the processors of a mask.
    SetAffinity(u32, u64),
    /// Note that it cannot be bound to processors here.
    AffinityUnsupported(u32),
}

/// The nice value of backends that run at low priority.
pub const LOW_PRIORITY_NICE: i32 = 10;

/// How the resources of the process `pid` are set on Unix: its priority where it is to be low.
pub open spec fn unix_resources(pid: u32, config: ConfigView) -> Seq<ProcessAction> {
    let priority: Seq<ProcessAction> = if config.low_priority {
        seq![ProcessAction::Renice(pid, LOW_PRIORITY_NICE)]
    } else {
        Seq::empty()
    };
    let affinity: Seq<ProcessAction> = if config.cpu_affinity != 0 {
        seq![ProcessAction::AffinityUnsupported(pid)]
    } else {
        Seq::empty()
    };
    priority + affinity
}

/// How the resources of the process `pid` are set on Windows: its priority where it is to be low,
/// and its processors where a mask is configured.
pub open spec fn windows_resources(pid: u32, config: ConfigView) -> Seq<ProcessAction> {
    let priority: Seq<ProcessAction> = if config.low_priority {
        seq![ProcessAction::BelowNormal(pid)]
    } else {
        Seq::empty()
    };
    let affinity: Seq<ProcessAction> = if config.cpu_affinity != 0 {
        seq![ProcessAction::SetAffinity(pid, config.cpu_affinity)]
    } else {
        Seq::empty()
    };
    priority + affinity
}

/// What is done about a process that has just started: it joins the group where there is one, and
/// its resources are set. A process that is already gone is left alone.
pub open spec fn start_actions(
    pid: Option<u32>,
    in_group: bool,
    config: ConfigView,
    on_windows: bool,
) -> Seq<ProcessAction> {
    match pid {
        Some(pid) => {
            let joining: Seq<ProcessAction> = if in_group {
                seq![ProcessAction::JoinGroup(pid)]
            } else {
                Seq::empty()
            };
            joining + if on_windows {
                windows_resources(pid, config)
            } else {
                unix_resources(pid, config)
            }
        },
        None => Seq::empty(),
    }
}

/// How the resources of the process `pid` are set on Unix.
pub fn configure_process_resources_unix(pid: u32, config: &Config) -> (res: Vec<ProcessAction>)
    ensures
        res@ == unix_resources(pid, config@),
{
    let mut actions: Vec<ProcessAction> = Vec::new();
    if config.low_priority {
        actions.push(ProcessAction::Renice(pid, LOW_PRIORITY_NICE));
    }
    if config.cpu_affinity != 0 {
        actions.push(ProcessAction::AffinityUnsupported(pid));
    }
    assert(actions@ =~= unix_resources(pid, config@));
    actions
}

/// How the resources of the process `pid` are set on Windows.
pub fn configure_process_resources(pid: u32, config: &Config) -> (res: Vec<ProcessAction>)
    ensures
        res@ == windows_resources(pid, config@),
{
    let mut actions: Vec<ProcessAction> = Vec::new();
    if config.low_priority {
        actions.push(ProcessAction::BelowNormal(pid));
    }
    if config.cpu_affinity != 0 {
        actions.push(ProcessAction::SetAffinity(pid, config.cpu_affinity));
    }
    assert(actions@ =~= windows_resources(pid, config@));
    actions
}

/// What is done about a process that has just started; `on_windows` tells on which system.
pub fn actions_after_start(pid: Option<u32>, in_group: bool, config: &Config, on_windows: bool) -> (
res: Vec<ProcessAction>)
    ensures
        res@ == start_actions(pid, in_group, config@, on_windows),
{
    let mut actions: Vec<ProcessAction> = Vec::new();
    if let Some(pid) = pid {
        if in_group {
            actions.push(ProcessAction::JoinGroup(pid));
        }
        let mut resources = if on_windows {
            configure_process_resources(pid, config)
        } else {
            configure_process_resources_unix(pid, config)
        };
        actions.append(&mut resources);
    }
    assert(actions@ =~= start_actions(pid, in_group, config@, on_windows));
    actions
}

/// What a shutdown begins with.
pub struct ShutdownPlan {
    /// Whether the writing task is to be stopped.
    pub stop_writer: bool,
    /// Whether the reading task is to be stopped.
    pub stop_reader: bool,
    /// For how many milliseconds the end of the process is waited for, if there is a process.
    pub wait_ms: Option<u64>,
}

/// What came of waiting for a process to end.
#[derive(Debug, Clone, Copy, PartialEq, Eq, Structural)]
pub enum WaitOutcome {
    /// It ended by itself.
    Exited,
    /// The wait failed.
    Failed,
    /// It did not end in time.
    TimedOut,
}

/// Milliseconds that a backend has to end by itself.
pub const GRACEFUL_TIMEOUT_MS: u64 = 5000;

/// The backend at the beginning of its shutdown: nothing is sent to its process any more, and the
/// process is given up.
pub open spec fn stopping<T>(b: BackendView<T>) -> BackendView<T> {
    BackendView {
        state: BackendState::Stopping,
        stdin_open: false,
        writer_running: false,
        reader_running: false,
        has_child: false,
        ..b
    }
}

/// What the shutdown of `b` begins with.
pub open spec fn is_plan_for<T>(plan: ShutdownPlan, b: BackendView<T>, wait_ms: u64) -> bool {
    &&& plan.stop_writer == b.writer_running
    &&& plan.stop_reader == b.reader_running
    &&& plan.wait_ms == (if b.has_child {
        Some(wait_ms)
    } else {
        None
    })
}

/// The backend at the end of its shutdown. On Windows the id of the process stays on record: there
/// a job object keeps track of processes by itself.
pub open spec fn stopped<T>(b: BackendView<T>, on_windows: bool) -> BackendView<T> {
    BackendView {
        state: BackendState::Dead,
        child_pid: if on_windows {
            b.child_pid
        } else {
            None
        },
        ..b
    }
}

/// The backend with the process of a new one in place of its own.
pub open spec fn renewed<T>(b: BackendView<T>, new: BackendView<T>, now: u64) -> BackendView<T> {
    BackendView {
        state: new.state,
        has_child: new.has_child,
        stdin_open: new.stdin_open,
        pending: new.pending,
        writer_running: new.writer_running,
        reader_running: new.reader_running,
        child_pid: new.child_pid,
        last_used: now,
        ..b
    }
}

/// What is left of a backend whose process another one took over.
pub open spec fn husk<T>(b: BackendView<T>) -> BackendView<T> {
    BackendView {
        state: BackendState::Dead,
        has_child: false,
        stdin_open: false,
        pending: Map::empty(),
        writer_running: false,
        reader_running: false,
        child_pid: None,
        ..b
    }
}

/// Whether a process must be killed after waiting for its end gave `outcome`.
pub fn must_kill(outcome: WaitOutcome) -> (res: bool)
    ensures
        res == (outcome != WaitOutcome::Exited),
{
    match outcome {
        WaitOutcome::Exited => false,
        WaitOutcome::Failed => true,
        WaitOutcome::TimedOut => true,
    }
}

impl<T> BackendInstance<T> {
    /// Begins to shut the backend down.
    pub fn shutdown(&mut self) -> (res: ShutdownPlan)
        ensures
            old(self)@.well_formed() ==> final(self)@.well_formed(),
            is_plan_for(res, old(self)@, GRACEFUL_TIMEOUT_MS),
            final(self)@ == stopping(old(self)@),
    {
        self.shutdown_with_timeout(GRACEFUL_TIMEOUT_MS)
    }

    /// Begins to shut the backend down, giving its process `graceful_timeout_ms` milliseconds to
    /// end by itself.
    pub fn shutdown_with_timeout(&mut self, graceful_timeout_ms: u64) -> (res: ShutdownPlan)
        ensures
            old(self)@.well_formed() ==> final(self)@.well_formed(),
            is_plan_for(res, old(self)@, graceful_timeout_ms),
            final(self)@ == stopping(old(self)@),
    {
        self.state = BackendState::Stopping;
        self.stdin_open = false;
        let stop_writer = self.writer_running;
        self.writer_running = false;
        let stop_reader = self.reader_running;
        self.reader_running = false;
        let wait_ms: Option<u64> = if self.has_child {
            Some(graceful_timeout_ms)
        } else {
            None
        };
        self.has_child = false;
        ShutdownPlan { stop_writer, stop_reader, wait_ms }
    }

    /// Ends the shutdown, once the process is gone. The result is the process to take out of the
    /// process group, if there is one in it; nothing is ever taken out of a job object of Windows.
    pub fn finish_shutdown(&mut self, on_windows: bool) -> (res: Option<u32>)
        ensures
            old(self)@.well_formed() ==> final(self)@.well_formed(),
            res == (if old(self)@.in_group && !on_windows {
                old(self)@.child_pid
            } else {
                None
            }),
            final(self)@ == stopped(old(self)@, on_windows),
    {
        self.state = BackendState::Dead;
        if on_windows {
            return None;
        }
        let pid: Option<u32> = self.child_pid;
        self.child_pid = None;
        if self.in_group {
            pid
        } else {
            None
        }
    }

    /// Takes over the process of a backend that was just started.
    pub fn apply_new_instance(&mut self, new_instance: &mut BackendInstance<T>, now: u64)
        ensures
            old(self)@.well_formed() && old(new_instance)@.well_formed()
                ==> final(self)@.well_formed() && final(new_instance)@.well_formed(),
            final(self)@ == renewed(old(self)@, old(new_instance)@, now),
            final(new_instance)@ == husk(old(new_instance)@),
    {
        self.state = new_instance.state;
        self.has_child = new_instance.has_child;
        self.stdin_open = new_instance.stdin_open;
        let mut pending: PendingTable<T> = PendingTable::new();
        std::mem::swap(&mut pending, &mut new_instance.pending);
        self.pending = pending;
        self.writer_running = new_instance.writer_running;
        self.reader_running = new_instance.reader_running;
        self.child_pid = new_instance.child_pid;
        self.last_used = now;
        new_instance.has_child = false;
        new_instance.stdin_open = false;
        new_instance.writer_running = false;
        new_instance.reader_running = false;
        new_instance.child_pid = None;
        new_instance.state = BackendState::Dead;
    }

    /// Restarts the backend, once it is shut down and starting a new process for it gave
    /// `outcome`.
    pub fn restart(&mut self, outcome: SpawnOutcome, now: u64) -> (res: Result<(), ProxyError>)
        requires
            !old(self)@.has_child,
            old(self)@.state == BackendState::Dead,
        ensures
            old(self)@.well_formed() ==> final(self)@.well_formed(),
            match res {
                Ok(_) => {
                    &&& command_problem(old(self)@.config) is None
                    &&& spawn_problem(outcome) is None
                    &&& final(self)@ == renewed(
                        old(self)@,
                        fresh_backend(
                            old(self)@.config,
                            old(self)@.root,
                            outcome,
                            old(self)@.in_group,
                            now,
                        ),
                        now,
                    )
                },
                Err(e) => {
                    &&& is_spawn_error(e, old(self)@.config, outcome)
                    &&& final(self)@ == old(self)@
                },
            },
    {
        let root = self.root.clone();
        match BackendInstance::spawn(&self.config, root, outcome, self.in_group, now) {
            Ok(new_instance) => {
                let mut new_instance = new_instance;
                self.apply_new_instance(&mut new_instance, now);
                Ok(())
            },
            Err(e) => Err(e),
        }
    }
}

/// A backend that was shut down is dead: it has no process, nothing can be sent to it, it can be
/// restarted, and shutting it down again finds nothing to stop and nothing to wait for.
pub proof fn shutdown_leaves_no_process<T>(
    b: BackendView<T>,
    on_windows: bool,
    plan: ShutdownPlan,
    wait_ms: u64,
)
    requires
        is_plan_for(plan, stopped(stopping(b), on_windows), wait_ms),
    ensures
        ({
            let end = stopped(stopping(b), on_windows);
            &&& end.state == BackendState::Dead
            &&& !end.has_child
            &&& !end.stdin_open
            &&& !on_windows ==> end.child_pid is None
            &&& end.root == b.root
            &&& end.config == b.config
            &&& stopped(stopping(end), on_windows) == end
        }),
        !plan.stop_writer,
        !plan.stop_reader,
        plan.wait_ms is None,
{
}

/// A restart is a new start: after a shutdown and a restart that succeeds the backend is what a
/// new one of the same configuration and root would be, with no request left waiting.
pub proof fn restart_is_a_new_start<T>(
    b: BackendView<T>,
    on_windows: bool,
    outcome: SpawnOutcome,
    now: u64,
)
    requires
        b.well_formed(),
    ensures
        renewed(
            stopped(stopping(b), on_windows),
            fresh_backend(b.config, b.root, outcome, b.in_group, now),
            now,
        ) == fresh_backend::<T>(b.config, b.root, outcome, b.in_group, now),
{
}

/// A request whose answer does not come leaves no trace among the waiting requests: once it is
/// given up, those from before wait, and an answer that comes late reaches nobody.
pub proof fn unanswered_request_leaves_no_trace<T, P>(
    before: BackendView<T>,
    proxy_id: u64,
    waiting: PendingRequest<T>,
    outcome: RequestOutcome<P>,
    result: Result<JsonRpcResponse<P>, ProxyError>,
    after: BackendView<T>,
    late: JsonRpcResponse<P>,
    late_result: Delivery<T, P>,
    at_last: Map<u64, PendingRequest<T>>,
)
    requires
        !before.pending.contains_key(proxy_id),
        outcome is Closed || outcome is TimedOut,
        request_ended(
            BackendView { pending: before.pending.insert(proxy_id, waiting), ..before },
            proxy_id,
            outcome,
            result,
            after,
        ),
        late.id == Some(JsonRpcId::Number(wire_number(proxy_id))),
        delivered(after.pending, late, late_result, at_last),
    ensures
        result is Err,
        after.pending == before.pending,
        late_result is Unknown,
        at_last == before.pending,
{
    assert(before.pending.insert(proxy_id, waiting).remove(proxy_id) =~= before.pending);
    wire_number_reads_back(proxy_id);
}

/// A request goes out to a backend that can be sent to, and only there: it keeps its method, its
/// parameters and its version, its client waits for the answer, and no other request is touched.
pub proof fn request_goes_out<T, P>(
    backend: &mut BackendInstance<T>,
    counter: &mut ProxyIdCounter,
    request: JsonRpcRequest<P>,
    reply: T,
    now: u64,
    res: Result<(u64, JsonRpcRequest<P>), ProxyError>,
    other: u64,
)
    requires
        call_ensures(
            BackendInstance::<T>::send_request::<P>,
            (backend, counter, request, reply, now),
            res,
        ),
    ensures
        res is Ok <==> old(backend)@.stdin_open && request.id is Some,
        res matches Ok((proxy_id, message)) ==> {
            &&& proxy_id == old(counter).upcoming()
            &&& proxy_id < u64::MAX ==> final(counter).upcoming() == proxy_id + 1
            &&& message.id is Some
            &&& message.jsonrpc == request.jsonrpc
            &&& message.method == request.method
            &&& message.params == request.params
            &&& final(backend)@.pending.contains_key(proxy_id)
            &&& final(backend)@.pending[proxy_id].client_id == request.id
            &&& final(backend)@.pending[proxy_id].reply == reply
            &&& other != proxy_id ==> {
                &&& final(backend)@.pending.contains_key(other)
                    == old(backend)@.pending.contains_key(other)
                &&& final(backend)@.pending.contains_key(other) ==> final(backend)@.pending[other]
                    == old(backend)@.pending[other]
            }
        },
        res matches Err(e) ==> {
            &&& final(backend)@.pending == old(backend)@.pending
            &&& final(counter).upcoming() == old(counter).upcoming()
            &&& if old(backend)@.stdin_open {
                e is RoutingFailed && e.text()
                    == "send_request called with notification (id is None)"@
            } else {
                e is BackendUnavailable && e.text() == "Backend stdin not available"@
            }
        },
        final(backend)@ == (BackendView {
            last_used: now,
            pending: final(backend)@.pending,
            ..old(backend)@
        }),
{
}

/// The answer to a request finds its way back: when the backend answers under the id of the message
/// that went out, with a result or with an error, the client gets that answer under its own id, and
/// the waiting requests are those from before.
pub proof fn answer_finds_its_way_back<T, P>(
    sender: &mut BackendInstance<T>,
    counter: &mut ProxyIdCounter,
    request: JsonRpcRequest<P>,
    reply: T,
    now: u64,
    proxy_id: u64,
    message: JsonRpcRequest<P>,
    receiver: &mut BackendInstance<T>,
    response: JsonRpcResponse<P>,
    action: ReaderAction<T, P>,
)
    requires
        call_ensures(
            BackendInstance::<T>::send_request::<P>,
            (sender, counter, request, reply, now),
            Ok((proxy_id, message)),
        ),
        !old(sender)@.pending.contains_key(proxy_id),
        old(receiver)@ == final(sender)@,
        response.id == message.id,
        call_ensures(
            BackendInstance::<T>::reader_step::<P>,
            (receiver, ReaderEvent::Parsed(response)),
            action,
        ),
    ensures
        action == ReaderAction::Answer(
            reply,
            JsonRpcResponse {
                jsonrpc: response.jsonrpc,
                id: request.id,
                result: response.result,
                error: response.error,
            },
        ),
        final(receiver)@ == (BackendView { last_used: now, ..old(sender)@ }),
{
    wire_number_reads_back(proxy_id);
    assert(final(sender)@.pending.remove(proxy_id) =~= old(sender)@.pending);
}

/// Two requests that go out one after the other have different ids, so that neither takes the
/// place of the other.
pub proof fn requests_have_different_ids<T, P>(
    first: &mut BackendInstance<T>,
    counter: &mut ProxyIdCounter,
    request: JsonRpcRequest<P>,
    reply: T,
    now: u64,
    res: Result<(u64, JsonRpcRequest<P>), ProxyError>,
    second: &mut BackendInstance<T>,
    next_counter: &mut ProxyIdCounter,
    next_request: JsonRpcRequest<P>,
    next_reply: T,
    later: u64,
    next_res: Result<(u64, JsonRpcRequest<P>), ProxyError>,
)
    requires
        call_ensures(
            BackendInstance::<T>::send_request::<P>,
            (first, counter, request, reply, now),
            res,
        ),
        old(next_counter).upcoming() == final(counter).upcoming(),
        call_ensures(
            BackendInstance::<T>::send_request::<P>,
            (second, next_counter, next_request, next_reply, later),
            next_res,
        ),
        res is Ok,
        next_res is Ok,
    ensures
        res->Ok_0.0 != next_res->Ok_0.0,
        res->Ok_0.1.id != next_res->Ok_0.1.id,
{
    wire_number_reads_back(res->Ok_0.0);
    wire_number_reads_back(next_res->Ok_0.0);
}

/// A request ends well exactly where its answer came, and with that answer. Every other end is an
/// error, and says whether the backend can be reached, was too slow or could not be told.
pub proof fn request_ends_with_its_answer<T, P>(
    backend: &mut BackendInstance<T>,
    proxy_id: u64,
    outcome: RequestOutcome<P>,
    res: Result<JsonRpcResponse<P>, ProxyError>,
)
    requires
        call_ensures(
            BackendInstance::<T>::finish_request::<P>,
            (backend, proxy_id, outcome),
            res,
        ),
    ensures
        match outcome {
            RequestOutcome::Response(response) => res == Ok::<JsonRpcResponse<P>, ProxyError>(
                response,
            ),
            RequestOutcome::NotWritten(reason) => res is Err && res->Err_0 is JsonError
                && res->Err_0.text() == reason@,
            RequestOutcome::NotSent(reason) => res is Err && res->Err_0 is BackendUnavailable
                && res->Err_0.text() == "Failed to send to backend: "@ + reason@,
            RequestOutcome::Closed => res is Err && res->Err_0 is BackendUnavailable
                && res->Err_0.text() == "Backend response channel closed"@,
            RequestOutcome::TimedOut => res is Err && res->Err_0 is BackendTimeout,
        },
        outcome is Closed || outcome is TimedOut ==> final(backend)@.pending
            == old(backend)@.pending.remove(proxy_id),
        !(outcome is Closed || outcome is TimedOut) ==> final(backend)@.pending
            == old(backend)@.pending,
        outcome is Closed ==> final(backend)@.state == BackendState::Dead,
        !(outcome is Closed) ==> final(backend)@.state == old(backend)@.state,
        final(backend)@ == (BackendView {
            state: final(backend)@.state,
            pending: final(backend)@.pending,
            ..old(backend)@
        }),
{
}

/// The message about a request that took too long names the time that it had.
pub proof fn timeout_names_the_time<T, P>(
    backend: &mut BackendInstance<T>,
    proxy_id: u64,
    res: Result<JsonRpcResponse<P>, ProxyError>,
    seconds: String,
)
    requires
        call_ensures(
            BackendInstance::<T>::finish_request::<P>,
            (backend, proxy_id, RequestOutcome::TimedOut),
            res,
        ),
        call_ensures(u64_to_text, (old(backend)@.request_timeout_seconds,), seconds),
    ensures
        res is Err,
        res->Err_0.text() == "Request timed out after "@ + seconds@ + " seconds"@,
{
}

/// A notification goes out to a backend that can be sent to, and only there; nobody waits for an
/// answer to it.
pub proof fn notification_goes_out<T, P>(
    backend: &mut BackendInstance<T>,
    notification: &JsonRpcRequest<P>,
    now: u64,
    res: Result<(), ProxyError>,
)
    requires
        call_ensures(
            BackendInstance::<T>::send_notification::<P>,
            (backend, notification, now),
            res,
        ),
    ensures
        res is Ok <==> old(backend)@.stdin_open && notification.id is None,
        notification.id is Some ==> res is Err && res->Err_0 is RoutingFailed && res->Err_0.text()
            == "send_notification called with request (id is Some)"@,
        notification.id is None && !old(backend)@.stdin_open ==> res is Err
            && res->Err_0 is BackendUnavailable && res->Err_0.text()
            == "Backend stdin not available"@,
        final(backend)@ == (BackendView { last_used: now, ..old(backend)@ }),
{
}

/// A message with an id is taken as a request and one without as a notification, never as both.
pub proof fn message_is_request_or_notification<T, P>(
    first: &mut BackendInstance<T>,
    second: &mut BackendInstance<T>,
    counter: &mut ProxyIdCounter,
    message: JsonRpcRequest<P>,
    reply: T,
    now: u64,
    as_request: Result<(u64, JsonRpcRequest<P>), ProxyError>,
    as_notification: Result<(), ProxyError>,
)
    requires
        old(first)@.stdin_open,
        old(second)@.stdin_open,
        call_ensures(
            BackendInstance::<T>::send_request::<P>,
            (first, counter, message, reply, now),
            as_request,
        ),
        call_ensures(
            BackendInstance::<T>::send_notification::<P>,
            (second, &message, now),
            as_notification,
        ),
    ensures
        as_request is Ok <==> as_notification is Err,
{
}

/// A notification succeeds exactly where it was sent.
pub proof fn notification_succeeds_when_sent(
    outcome: NotificationOutcome,
    res: Result<(), ProxyError>,
)
    requires
        call_ensures(finish_notification, (outcome,), res),
    ensures
        res is Ok <==> outcome is Sent,
        outcome matches NotificationOutcome::NotWritten(reason) ==> res->Err_0 is JsonError
            && res->Err_0.text() == reason@,
        outcome matches NotificationOutcome::NotSent(reason) ==> res->Err_0 is BackendUnavailable
            && res->Err_0.text() == "Failed to send to backend: "@ + reason@,
{
}

/// A backend is started with node, which runs the entry script in the configured mode for its
/// workspace root, and it talks with the proxy through its standard input and output.
pub proof fn command_serves_its_root<T>(
    config: &Config,
    root: &FilePath,
    command: BackendCommand,
)
    requires
        call_ensures(BackendInstance::<T>::build_command, (config, root), Ok(command)),
    ensures
        config@.node == Some(command.program@),
        command.args@.len() == 6,
        config@.auggie_entry == Some(command.args@[0]@),
        command.args@[1]@ == encode_utf8("--mcp"@),
        command.args@[2]@ == encode_utf8("-m"@),
        command.args@[3]@ == encode_utf8(config@.mode),
        command.args@[4]@ == encode_utf8("--workspace-root"@),
        command.args@[5]@ == root@,
        command.stdin == StreamSetup::Piped,
        command.stdout == StreamSetup::Piped,
        command.stderr == StreamSetup::Inherited,
        command.env@.len() == 1,
        command.env@[0].0@ == "AUGMENT_DISABLE_AUTO_UPDATE"@,
        command.env@[0].1@ == "1"@,
{
    let args = part_views(command.args@);
    assert(args.len() == 6);
    assert(forall|i: int| 0 <= i < 6 ==> #[trigger] args[i] == command.args@[i]@);
}

/// A command can be had exactly where the paths of node and of the entry script are known.
pub proof fn command_needs_both_tools<T>(
    config: &Config,
    root: &FilePath,
    res: Result<BackendCommand, ProxyError>,
)
    requires
        call_ensures(BackendInstance::<T>::build_command, (config, root), res),
    ensures
        res is Ok <==> config@.node is Some && config@.auggie_entry is Some,
        config@.node is None ==> res->Err_0 is ConfigError && res->Err_0.text()
            == "Node path not configured"@,
        config@.node is Some && config@.auggie_entry is None ==> res->Err_0 is ConfigError
            && res->Err_0.text() == "Auggie entry path not configured"@,
{
}

/// A backend is there exactly where both tools are known, its process was started and both of its
/// pipes could be had; then it is ready, serves its root, nothing waits, and a request to it goes
/// out.
pub proof fn started_backend_is_ready<T, P>(
    config: &Config,
    root: FilePath,
    outcome: SpawnOutcome,
    in_group: bool,
    now: u64,
    res: Result<BackendInstance<T>, ProxyError>,
    sender: &mut BackendInstance<T>,
    counter: &mut ProxyIdCounter,
    request: JsonRpcRequest<P>,
    reply: T,
    sent: Result<(u64, JsonRpcRequest<P>), ProxyError>,
)
    requires
        call_ensures(
            BackendInstance::<T>::spawn,
            (config, root, outcome, in_group, now),
            res,
        ),
        res matches Ok(backend) ==> old(sender)@ == backend@,
        request.id is Some,
        call_ensures(
            BackendInstance::<T>::send_request::<P>,
            (sender, counter, request, reply, now),
            sent,
        ),
    ensures
        res is Ok <==> config@.node is Some && config@.auggie_entry is Some
            && (outcome matches SpawnOutcome::Started { pid, stdin, stdout } && stdin && stdout),
        res matches Err(e) ==> if config@.node is None || config@.auggie_entry is None {
            e is ConfigError
        } else {
            &&& e is BackendSpawnFailed
            &&& match outcome {
                SpawnOutcome::Failed(reason) => e.text() == "Failed to spawn backend: "@ + reason@,
                SpawnOutcome::Started { pid, stdin, stdout } => if !stdin {
                    e.text() == "Failed to get stdin handle"@
                } else {
                    e.text() == "Failed to get stdout handle"@
                },
            }
        },
        res matches Ok(backend) ==> {
            &&& backend@.state == BackendState::Ready
            &&& backend@.root == root@
            &&& backend@.config == config@
            &&& backend@.request_timeout_seconds == config@.request_timeout_seconds
            &&& backend@.has_child
            &&& backend@.stdin_open
            &&& backend@.writer_running
            &&& backend@.reader_running
            &&& backend@.pending == Map::<u64, PendingRequest<T>>::empty()
            &&& backend@.child_pid == outcome->pid
            &&& backend@.in_group == in_group
            &&& backend@.last_used == now
            &&& sent is Ok
        },
{
}

/// A backend that is healthy can be used: a request to it goes out. One is healthy exactly where
/// its process runs, it is not dead and it can be sent to.
pub proof fn healthy_backend_can_be_used<T, P>(
    backend: &mut BackendInstance<T>,
    status: ProcessStatus,
    healthy: bool,
    sender: &mut BackendInstance<T>,
    counter: &mut ProxyIdCounter,
    request: JsonRpcRequest<P>,
    reply: T,
    now: u64,
    res: Result<(u64, JsonRpcRequest<P>), ProxyError>,
)
    requires
        call_ensures(BackendInstance::<T>::health_check, (backend, status), healthy),
        old(sender)@ == final(backend)@,
        request.id is Some,
        call_ensures(
            BackendInstance::<T>::send_request::<P>,
            (sender, counter, request, reply, now),
            res,
        ),
    ensures
        healthy ==> res is Ok && final(backend)@ == old(backend)@,
        healthy <==> status == ProcessStatus::Running && old(backend)@.has_child
            && old(backend)@.stdin_open && old(backend)@.state != BackendState::Dead,
{
}

/// A backend whose process has exited is dead, and so is one whose process runs but cannot be sent
/// to. Asking after a process changes nothing else; one of which nothing could be found out does
/// not count as alive, and stays as it is.
pub proof fn exited_process_makes_a_dead_backend<T>(
    backend: &mut BackendInstance<T>,
    status: ProcessStatus,
    healthy: bool,
    other: &mut BackendInstance<T>,
    alive: bool,
)
    requires
        call_ensures(BackendInstance::<T>::health_check, (backend, status), healthy),
        call_ensures(BackendInstance::<T>::is_process_alive, (other, status), alive),
        old(other)@ == old(backend)@,
    ensures
        alive <==> old(backend)@.has_child && status == ProcessStatus::Running,
        healthy ==> alive,
        old(backend)@.has_child && status == ProcessStatus::Exited ==> final(backend)@.state
            == BackendState::Dead && final(other)@.state == BackendState::Dead,
        !(old(backend)@.has_child && status == ProcessStatus::Exited) ==> final(other)@
            == old(other)@,
        alive && !old(backend)@.stdin_open ==> final(backend)@.state == BackendState::Dead,
        !alive && !(old(backend)@.has_child && status == ProcessStatus::Exited) ==> final(backend)@
            == old(backend)@,
        final(backend)@ == (BackendView { state: final(backend)@.state, ..old(backend)@ }),
        final(other)@ == (BackendView { state: final(other)@.state, ..old(other)@ }),
{
}

/// A backend is dead exactly where its state says so, and has requests waiting exactly where one
/// of them has an id.
pub proof fn backend_tells_its_state<T>(
    backend: &BackendInstance<T>,
    dead: bool,
    waiting: bool,
)
    requires
        call_ensures(BackendInstance::<T>::is_dead, (backend,), dead),
        call_ensures(BackendInstance::<T>::has_pending, (backend,), waiting),
    ensures
        dead <==> backend@.state == BackendState::Dead,
        waiting <==> exists|id: u64| #[trigger] backend@.pending.contains_key(id),
{
    if waiting {
        if forall|id: u64| !#[trigger] backend@.pending.contains_key(id) {
            assert(backend@.pending =~= Map::empty());
        }
    }
}

/// What is done about a process that has just started: where it belongs to a group it joins the
/// group before anything else, its priority is lowered exactly where that is configured, and its
/// processors are set exactly where a mask is. A process that is already gone is left alone.
pub proof fn new_process_is_set_up(
    pid: Option<u32>,
    in_group: bool,
    config: &Config,
    on_windows: bool,
    actions: Vec<ProcessAction>,
)
    requires
        call_ensures(actions_after_start, (pid, in_group, config, on_windows), actions),
    ensures
        pid is None ==> actions@.len() == 0,
        pid matches Some(id) ==> {
            let lower = if on_windows {
                ProcessAction::BelowNormal(id)
            } else {
                ProcessAction::Renice(id, 10)
            };
            let bind = if on_windows {
                ProcessAction::SetAffinity(id, config@.cpu_affinity)
            } else {
                ProcessAction::AffinityUnsupported(id)
            };
            let join = ProcessAction::JoinGroup(id);
            &&& actions@.contains(join) <==> in_group
            &&& in_group ==> actions@[0] == join
            &&& actions@.contains(lower) <==> config@.low_priority
            &&& actions@.contains(bind) <==> config@.cpu_affinity != 0
            &&& forall|i: int|
                0 <= i < actions@.len() ==> #[trigger] actions@[i] == join || actions@[i] == lower
                    || actions@[i] == bind
            &&& actions@.no_duplicates()
        },
{
    if let Some(id) = pid {
        let lower = if on_windows {
            ProcessAction::BelowNormal(id)
        } else {
            ProcessAction::Renice(id, 10)
        };
        let bind = if on_windows {
            ProcessAction::SetAffinity(id, config@.cpu_affinity)
        } else {
            ProcessAction::AffinityUnsupported(id)
        };
        let at: int = if in_group {
            1
        } else {
            0
        };
        if in_group {
            assert(actions@[0] == ProcessAction::JoinGroup(id));
        }
        if config@.low_priority {
            assert(actions@[at] == lower);
            if config@.cpu_affinity != 0 {
                assert(actions@[at + 1] == bind);
            }
        } else if config@.cpu_affinity != 0 {
            assert(actions@[at] == bind);
        }
    }
}

/// The resources of a process are set as part of its start.
pub proof fn resources_are_part_of_the_start(
    pid: u32,
    in_group: bool,
    config: &Config,
    actions: Vec<ProcessAction>,
    resources: Vec<ProcessAction>,
    on_windows: bool,
)
    requires
        call_ensures(actions_after_start, (Some(pid), in_group, config, on_windows), actions),
        if on_windows {
            call_ensures(configure_process_resources, (pid, config), resources)
        } else {
            call_ensures(configure_process_resources_unix, (pid, config), resources)
        },
    ensures
        actions@ == (if in_group {
            seq![ProcessAction::JoinGroup(pid)] + resources@
        } else {
            resources@
        }),
{
}

/// A shutdown stops the tasks that run, and waits for the process where there is one, for as long
/// as it was told; by default that is five seconds. From its beginning on nothing can be sent.
pub proof fn shutdown_stops_what_runs<T>(
    backend: &mut BackendInstance<T>,
    wait_ms: u64,
    plan: ShutdownPlan,
    other: &mut BackendInstance<T>,
    default_plan: ShutdownPlan,
)
    requires
        call_ensures(BackendInstance::<T>::shutdown_with_timeout, (backend, wait_ms), plan),
        call_ensures(BackendInstance::<T>::shutdown, (other,), default_plan),
        old(other)@ == old(backend)@,
    ensures
        plan.stop_writer == old(backend)@.writer_running,
        plan.stop_reader == old(backend)@.reader_running,
        plan.wait_ms is Some <==> old(backend)@.has_child,
        plan.wait_ms matches Some(ms) ==> ms == wait_ms,
        final(backend)@.state == BackendState::Stopping,
        !final(backend)@.stdin_open,
        !final(backend)@.writer_running,
        !final(backend)@.reader_running,
        !final(backend)@.has_child,
        final(backend)@.pending == old(backend)@.pending,
        final(backend)@.child_pid == old(backend)@.child_pid,
        final(backend)@.root == old(backend)@.root,
        final(backend)@.config == old(backend)@.config,
        final(backend)@.in_group == old(backend)@.in_group,
        final(backend)@.request_timeout_seconds == old(backend)@.request_timeout_seconds,
        final(other)@ == final(backend)@,
        wait_ms == 5000 ==> default_plan == plan,
{
}

/// A process that did not end by itself is killed: after a wait that failed as after one that was
/// too short.
pub proof fn process_that_stays_is_killed(outcome: WaitOutcome, kill: bool)
    requires
        call_ensures(must_kill, (outcome,), kill),
    ensures
        kill <==> outcome == WaitOutcome::Failed || outcome == WaitOutcome::TimedOut,
{
}

/// At the end of a shutdown the backend is dead, nothing can be sent to it, and it can be
/// restarted. On Unix its process is taken out of the group that it was in, and its id forgotten;
/// on Windows nothing is taken out.
pub proof fn shutdown_ends_in_a_dead_backend<T, P>(
    backend: &mut BackendInstance<T>,
    wait_ms: u64,
    plan: ShutdownPlan,
    stopped_one: &mut BackendInstance<T>,
    on_windows: bool,
    left: Option<u32>,
    sender: &mut BackendInstance<T>,
    counter: &mut ProxyIdCounter,
    request: JsonRpcRequest<P>,
    reply: T,
    now: u64,
    res: Result<(u64, JsonRpcRequest<P>), ProxyError>,
)
    requires
        call_ensures(BackendInstance::<T>::shutdown_with_timeout, (backend, wait_ms), plan),
        old(stopped_one)@ == final(backend)@,
        call_ensures(BackendInstance::<T>::finish_shutdown, (stopped_one, on_windows), left),
        old(sender)@ == final(stopped_one)@,
        call_ensures(
            BackendInstance::<T>::send_request::<P>,
            (sender, counter, request, reply, now),
            res,
        ),
    ensures
        final(stopped_one)@.state == BackendState::Dead,
        !final(stopped_one)@.has_child,
        res is Err && res->Err_0 is BackendUnavailable,
        on_windows ==> left is None && final(stopped_one)@.child_pid == old(backend)@.child_pid,
        !on_windows ==> final(stopped_one)@.child_pid is None,
        !on_windows && old(backend)@.in_group ==> left == old(backend)@.child_pid,
        !old(backend)@.in_group ==> left is None,
        final(stopped_one)@.root == old(backend)@.root,
        final(stopped_one)@.config == old(backend)@.config,
        final(stopped_one)@.in_group == old(backend)@.in_group,
        final(stopped_one)@.pending == old(backend)@.pending,
        final(stopped_one)@.request_timeout_seconds == old(backend)@.request_timeout_seconds,
{
}

/// A restart gives what a start would give: it succeeds where a start of the same configuration
/// does, with the same backend, and fails where that fails. A restart that failed leaves the
/// backend as it was.
pub proof fn restart_does_what_a_start_does<T>(
    backend: &mut BackendInstance<T>,
    outcome: SpawnOutcome,
    now: u64,
    res: Result<(), ProxyError>,
    config: &Config,
    root: FilePath,
    started: Result<BackendInstance<T>, ProxyError>,
)
    requires
        old(backend)@.well_formed(),
        !old(backend)@.has_child,
        old(backend)@.state == BackendState::Dead,
        call_ensures(BackendInstance::<T>::restart, (backend, outcome, now), res),
        config@ == old(backend)@.config,
        root@ == old(backend)@.root,
        call_ensures(
            BackendInstance::<T>::spawn,
            (config, root, outcome, old(backend)@.in_group, now),
            started,
        ),
    ensures
        res is Ok <==> started is Ok,
        res is Ok ==> final(backend)@ == started->Ok_0@,
        res is Err ==> final(backend)@ == old(backend)@ && (res->Err_0 is ConfigError
            <==> started->Err_0 is ConfigError) && (res->Err_0 is BackendSpawnFailed
            <==> started->Err_0 is BackendSpawnFailed),
{
}

/// A restart that succeeds gives a backend that is ready, serves the same root with the same
/// configuration, and has no request waiting.
pub proof fn restarted_backend_is_ready<T>(
    backend: &mut BackendInstance<T>,
    outcome: SpawnOutcome,
    now: u64,
)
    requires
        call_ensures(BackendInstance::<T>::restart, (backend, outcome, now), Ok(())),
    ensures
        final(backend)@.state == BackendState::Ready,
        final(backend)@.has_child,
        final(backend)@.stdin_open,
        final(backend)@.writer_running,
        final(backend)@.reader_running,
        final(backend)@.pending == Map::<u64, PendingRequest<T>>::empty(),
        final(backend)@.root == old(backend)@.root,
        final(backend)@.config == old(backend)@.config,
        final(backend)@.in_group == old(backend)@.in_group,
        final(backend)@.request_timeout_seconds == old(backend)@.request_timeout_seconds,
        final(backend)@.last_used == now,
        final(backend)@.child_pid == outcome->pid,
{
}

/// Taking over a new process moves it: what the new backend had the other one has, and the new one
/// is left dead and without a process.
pub proof fn process_is_taken_over<T>(
    backend: &mut BackendInstance<T>,
    new_instance: &mut BackendInstance<T>,
    now: u64,
)
    requires
        call_ensures(
            BackendInstance::<T>::apply_new_instance,
            (backend, new_instance, now),
            (),
        ),
    ensures
        final(backend)@.state == old(new_instance)@.state,
        final(backend)@.has_child == old(new_instance)@.has_child,
        final(backend)@.stdin_open == old(new_instance)@.stdin_open,
        final(backend)@.writer_running == old(new_instance)@.writer_running,
        final(backend)@.reader_running == old(new_instance)@.reader_running,
        final(backend)@.pending == old(new_instance)@.pending,
        final(backend)@.child_pid == old(new_instance)@.child_pid,
        final(backend)@.last_used == now,
        final(backend)@.root == old(backend)@.root,
        final(backend)@.config == old(backend)@.config,
        final(backend)@.in_group == old(backend)@.in_group,
        final(new_instance)@.state == BackendState::Dead,
        !final(new_instance)@.has_child,
        !final(new_instance)@.stdin_open,
        final(new_instance)@.pending == Map::<u64, PendingRequest<T>>::empty(),
        final(new_instance)@.child_pid is None,
{
}

/// However a shutdown went, its end leaves a dead backend. On Unix the process is taken out of the
/// group that it was in, and its id forgotten; on Windows nothing is taken out. All else stays.
pub proof fn end_of_a_shutdown<T>(
    backend: &mut BackendInstance<T>,
    on_windows: bool,
    left: Option<u32>,
)
    requires
        call_ensures(BackendInstance::<T>::finish_shutdown, (backend, on_windows), left),
    ensures
        final(backend)@.state == BackendState::Dead,
        !on_windows ==> final(backend)@.child_pid is None,
        on_windows ==> final(backend)@.child_pid == old(backend)@.child_pid,
        left is Some <==> !on_windows && old(backend)@.in_group && old(backend)@.child_pid is Some,
        left is Some ==> left == old(backend)@.child_pid,
        final(backend)@ == (BackendView {
            state: BackendState::Dead,
            child_pid: final(backend)@.child_pid,
            ..old(backend)@
        }),
{
}

/// On Windows a backend gets no console window.
pub proof fn no_console_window()
    ensures
        CREATE_NO_WINDOW == 0x0800_0000,
{
}

} // verus!
