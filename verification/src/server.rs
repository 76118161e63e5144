//! The server task: it follows the message source and feeds the V1 writer.
//!
//! The task is a state machine: it says what to do next and is told what came of it.
use vstd::prelude::*;

use crate::config::ConfigAppsRichat;
use crate::config::ConfigShmServer;
use crate::config::RichatFilter;
use crate::layout::planned;
use crate::layout::LayoutError;
use crate::layout::VERSION;
use crate::writer::ShmServerWriter;

verus! {

/// Seconds to wait after a subscription failed.
pub const SUBSCRIBE_RETRY_SECS: u64 = 1;

/// Seconds to wait for the first message of a subscription.
pub const FIRST_MESSAGE_SECS: u64 = 5;

/// The server that copies messages from a source into a V1 region.
#[derive(Debug)]
pub struct ShmServer;

/// What the server task is waiting to be told.
#[derive(Debug, Clone, Copy, PartialEq, Eq, Structural)]
pub enum ServerPhase {
    /// Whether the subscription was made
    Subscribe,
    /// That the wait after a failed subscription is over
    Retry,
    /// The first message of a subscription
    First,
    /// The next message
    Next,
    /// Whether the writer took the message
    Send,
    /// Nothing: it is done
    Stopped,
}

/// What the server task is told.
#[derive(Debug, Clone, Copy, PartialEq, Eq, Structural)]
pub enum ServerEvent {
    Subscribed,
    SubscribeFailed,
    /// The wait is over
    Slept,
    /// A message came
    Message,
    /// The source reports that the subscription lagged
    Lagged,
    /// The source closed, or the stream ended
    Ended,
    /// No message came in time
    TimedOut,
    /// The writer took the message, or is gone
    Sent(bool),
    /// Shutdown was requested
    Cancelled,
}

/// What the server task asks for. While it sleeps or receives, a shutdown interrupts it.
#[derive(Debug, Clone, Copy, PartialEq, Eq, Structural)]
pub enum ServerAction {
    /// Subscribe to the source
    Subscribe,
    /// Sleep that many seconds
    Sleep(u64),
    /// Receive a message, for at most that many seconds
    ReceiveWithin(u64),
    /// Receive a message
    Receive,
    /// Hand the message to the writer
    Send,
    /// End
    Stop,
}

/// The server task's state.
#[derive(Debug, Clone, Copy, PartialEq, Eq, Structural)]
pub struct ServerTask {
    pub phase: ServerPhase,
}

impl ServerTask {
    /// The event is one that the task waits for.
    pub open spec fn expects(self, event: ServerEvent) -> bool {
        match self.phase {
            ServerPhase::Subscribe => event is Subscribed || event is SubscribeFailed,
            ServerPhase::Retry => event is Slept || event is Cancelled,
            ServerPhase::First => event is Message || event is Lagged || event is Ended
                || event is TimedOut || event is Cancelled,
            ServerPhase::Next => event is Message || event is Lagged || event is Ended
                || event is Cancelled,
            ServerPhase::Send => event is Sent,
            ServerPhase::Stopped => false,
        }
    }

    /// What the task waits for, and asks for, after `event`.
    pub open spec fn next(self, event: ServerEvent) -> (ServerPhase, ServerAction) {
        match event {
            ServerEvent::Subscribed => (
                ServerPhase::First,
                ServerAction::ReceiveWithin(FIRST_MESSAGE_SECS),
            ),
            ServerEvent::SubscribeFailed => (
                ServerPhase::Retry,
                ServerAction::Sleep(SUBSCRIBE_RETRY_SECS),
            ),
            ServerEvent::Slept | ServerEvent::Lagged | ServerEvent::TimedOut => (
                ServerPhase::Subscribe,
                ServerAction::Subscribe,
            ),
            ServerEvent::Message => (ServerPhase::Send, ServerAction::Send),
            ServerEvent::Sent(true) => (ServerPhase::Next, ServerAction::Receive),
            ServerEvent::Sent(false) | ServerEvent::Ended | ServerEvent::Cancelled => (
                ServerPhase::Stopped,
                ServerAction::Stop,
            ),
        }
    }

    /// A task that is about to subscribe.
    pub fn new() -> (r: Self)
        ensures
            r.phase == ServerPhase::Subscribe,
    {
        ServerTask { phase: ServerPhase::Subscribe }
    }

    /// Takes the event that the task waits for and says what to do next.
    pub fn step(&mut self, event: ServerEvent) -> (action: ServerAction)
        requires
            old(self).expects(event),
        ensures
            (final(self).phase, action) == old(self).next(event),
    {
        match event {
            ServerEvent::Subscribed => {
                self.phase = ServerPhase::First;
                ServerAction::ReceiveWithin(FIRST_MESSAGE_SECS)
            },
            ServerEvent::SubscribeFailed => {
                self.phase = ServerPhase::Retry;
                ServerAction::Sleep(SUBSCRIBE_RETRY_SECS)
            },
            ServerEvent::Slept | ServerEvent::Lagged | ServerEvent::TimedOut => {
                self.phase = ServerPhase::Subscribe;
                ServerAction::Subscribe
            },
            ServerEvent::Message => {
                self.phase = ServerPhase::Send;
                ServerAction::Send
            },
            ServerEvent::Sent(taken) => {
                if taken {
                    self.phase = ServerPhase::Next;
                    ServerAction::Receive
                } else {
                    self.phase = ServerPhase::Stopped;
                    ServerAction::Stop
                }
            },
            ServerEvent::Ended | ServerEvent::Cancelled => {
                self.phase = ServerPhase::Stopped;
                ServerAction::Stop
            },
        }
    }
}

/// What the server runs with: the writer for its region, the task that follows the source, the
/// filter to subscribe with and the capacity of the channel between the two.
#[derive(Debug)]
pub struct ServerSetup {
    pub writer: ShmServerWriter,
    pub task: ServerTask,
    pub filter: Option<RichatFilter>,
    pub channel_capacity: usize,
}

impl ShmServer {
    /// Sets a server up as configured.
    pub fn spawn(config: &ConfigShmServer) -> (r: Result<ServerSetup, LayoutError>)
        ensures
            match planned(config.max_messages, config.max_bytes, VERSION) {
                Ok(layout) => {
                    &&& r == Ok::<ServerSetup, LayoutError>(
                        ServerSetup {
                            writer: ShmServerWriter { layout, pos: 0, data_pos: 0 },
                            task: ServerTask { phase: ServerPhase::Subscribe },
                            filter: match config.filter {
                                Some(f) => Some(
                                    RichatFilter {
                                        disable_accounts: f.disable_accounts,
                                        disable_transactions: f.disable_transactions,
                                        disable_entries: f.disable_entries,
                                    },
                                ),
                                None => None,
                            },
                            channel_capacity: config.channel_capacity,
                        },
                    )
                    &&& r->Ok_0.writer.wf()
                },
                Err(error) => r == Err::<ServerSetup, LayoutError>(error),
            },
    {
        let writer = match ShmServerWriter::new(config) {
            Ok(writer) => writer,
            Err(error) => {
                return Err(error);
            },
        };
        let filter = match config.filter {
            Some(f) => Some(RichatFilter::from(f)),
            None => None,
        };
        Ok(
            ServerSetup {
                writer,
                task: ServerTask::new(),
                filter,
                channel_capacity: config.channel_capacity,
            },
        )
    }
}

/// Once stopped, the task takes no more events; it stops when the stream ended, the writer is
/// gone or a shutdown was requested, and in no other case.
pub proof fn lemma_server_stop_is_final(task: ServerTask, event: ServerEvent, later: ServerEvent)
    requires
        task.expects(event),
    ensures
        task.next(event).0 is Stopped <==> (event is Ended || event is Cancelled || event
            == ServerEvent::Sent(false)),
        task.next(event).1 is Stop <==> task.next(event).0 is Stopped,
        task.next(event).0 is Stopped ==> !(ServerTask { phase: task.next(event).0 }).expects(
            later,
        ),
{
}

/// Every message that is received goes to the writer next: the task drops none.
pub proof fn lemma_server_forwards_every_message(task: ServerTask)
    requires
        task.expects(ServerEvent::Message),
    ensures
        task.next(ServerEvent::Message).1 is Send,
{
}

/// A lagging or silent subscription is replaced by a new one, whose first message is again
/// waited for only so long.
pub proof fn lemma_server_resubscribes(task: ServerTask, event: ServerEvent)
    requires
        task.expects(event),
        event is Lagged || event is TimedOut,
    ensures
        task.next(event).1 is Subscribe,
        (ServerTask { phase: task.next(event).0 }).next(ServerEvent::Subscribed).1
            == ServerAction::ReceiveWithin(FIRST_MESSAGE_SECS),
{
}

/// The task step by step: once subscribed it waits five seconds for the first message, and for each
/// further one as long as it takes; it waits one second before it subscribes again after that
/// failed, and subscribes at once after the source lagged or was silent; every message goes to
/// the writer, and the task ends only with the stream, the writer or a shutdown.
pub proof fn lemma_server_steps(task: &mut ServerTask, event: ServerEvent, action: ServerAction)
    requires
        call_ensures(ServerTask::step, (task, event), action),
    ensures
        event is Subscribed ==> action == ServerAction::ReceiveWithin(5) && final(task).phase
            is First,
        event is SubscribeFailed ==> action == ServerAction::Sleep(1) && final(task).phase is Retry,
        event is Slept || event is Lagged || event is TimedOut ==> action is Subscribe && final(
            task).phase is Subscribe,
        event is Message ==> action is Send && final(task).phase is Send,
        event == ServerEvent::Sent(true) ==> action is Receive && final(task).phase is Next,
        event == ServerEvent::Sent(false) || event is Ended || event is Cancelled ==> action is Stop
            && final(task).phase is Stopped,
{
}

/// After each step the task takes whatever can come of what it asked for: of a subscription that it
/// was made or failed, of a wait that it is over, of receiving a message, a lag or the end, and
/// where a time was set that it ran out, of sending whether it was taken; and a shutdown while it
/// waits.
pub proof fn lemma_server_takes_what_can_come(
    task: &mut ServerTask,
    event: ServerEvent,
    action: ServerAction,
    taken: bool,
)
    requires
        call_ensures(ServerTask::step, (task, event), action),
    ensures
        action is Subscribe ==> final(task).expects(ServerEvent::Subscribed) && final(
            task).expects(ServerEvent::SubscribeFailed),
        action is Sleep ==> final(task).expects(ServerEvent::Slept) && final(task).expects(
            ServerEvent::Cancelled,
        ),
        action is Receive || action is ReceiveWithin ==> {
            &&& final(task).expects(ServerEvent::Message)
            &&& final(task).expects(ServerEvent::Lagged)
            &&& final(task).expects(ServerEvent::Ended)
            &&& final(task).expects(ServerEvent::Cancelled)
        },
        action is ReceiveWithin ==> final(task).expects(ServerEvent::TimedOut),
        action is Send ==> final(task).expects(ServerEvent::Sent(taken)),
{
}

/// A new task takes whether its subscription was made.
pub proof fn lemma_new_server_task(task: ServerTask)
    requires
        call_ensures(ServerTask::new, (), task),
    ensures
        task.expects(ServerEvent::Subscribed),
        task.expects(ServerEvent::SubscribeFailed),
{
}

/// Message after message: a task that handed a message to the writer receives the next one, and
/// hands that on too.
pub proof fn lemma_server_keeps_forwarding(
    task: &mut ServerTask,
    a: ServerAction,
    sent: &mut ServerTask,
    b: ServerAction,
    next: &mut ServerTask,
    c: ServerAction,
)
    requires
        call_ensures(ServerTask::step, (task, ServerEvent::Message), a),
        *sent == *final(task),
        call_ensures(ServerTask::step, (sent, ServerEvent::Sent(true)), b),
        *next == *final(sent),
        call_ensures(ServerTask::step, (next, ServerEvent::Message), c),
    ensures
        a is Send,
        b is Receive,
        c is Send,
        *final(next) == *final(task),
{
}

/// A server is set up as configured: an empty region with room for what is configured, a task that
/// is about to subscribe, the configured filter switch by switch, and the configured capacity.
pub proof fn lemma_server_setup(config: &ConfigShmServer, setup: ServerSetup)
    requires
        call_ensures(ShmServer::spawn, (config,), Ok(setup)),
    ensures
        setup.writer.pos == 0,
        setup.writer.data_pos == 0,
        setup.writer.layout.version == 1,
        setup.writer.layout.entry_size == 32,
        config.max_messages <= setup.writer.layout.idx_capacity,
        config.max_bytes <= setup.writer.layout.data_capacity,
        config.max_messages <= 1 || setup.writer.layout.idx_capacity < 2 * config.max_messages,
        config.max_bytes <= 1 || setup.writer.layout.data_capacity < 2 * config.max_bytes,
        setup.task.phase is Subscribe,
        setup.filter is Some <==> config.filter is Some,
        (setup.filter matches Some(f) && config.filter matches Some(c)) ==> {
            &&& setup.filter->0.disable_accounts == config.filter->0.disable_accounts
            &&& setup.filter->0.disable_transactions == config.filter->0.disable_transactions
            &&& setup.filter->0.disable_entries == config.filter->0.disable_entries
        },
        setup.channel_capacity == config.channel_capacity,
{
    crate::capacity::lemma_power_bounds(config.max_messages as nat);
    crate::capacity::lemma_power_bounds(config.max_bytes as nat);
    let idx = crate::capacity::power_at_least(config.max_messages as nat) as int;
    assert(idx * 32 >= idx);
}

/// The servers to start are those that are configured.
pub proof fn lemma_configured_servers_start(config: ConfigAppsRichat, r: Vec<ConfigShmServer>)
    requires
        call_ensures(RichatServer::spawn, (config,), r),
    ensures
        config.shm is None ==> r@.len() == 0,
        config.shm matches Some(shm) ==> r@.len() == 1 && r@[0] == shm,
{
}

// --- Application servers ---

/// The servers of an application.
#[derive(Debug)]
pub struct RichatServer;

impl RichatServer {
    /// The shared-memory servers to start: the configured one, if any.
    pub fn spawn(config: ConfigAppsRichat) -> (r: Vec<ConfigShmServer>)
        ensures
            r@ == (match config.shm {
                Some(shm) => seq![shm],
                None => Seq::empty(),
            }),
    {
        let mut tasks: Vec<ConfigShmServer> = Vec::with_capacity(1);
        if let Some(shm) = config.shm {
            tasks.push(shm);
        }
        tasks
    }
}

} // verus!
