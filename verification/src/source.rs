//! Message sources: connecting and reconnecting to one, and polling and reloading many.
use vstd::prelude::*;
use vstd::std_specs::cmp::PartialEqSpec;

use crate::pre_filter::ShmPreFilter;

verus! {

// --- Received messages ---

/// Why a source cannot go on. `E` is the parser's error.
#[derive(Debug, Clone, Copy)]
pub enum ReceiveError<E> {
    Parse(E),
    /// Replay from the requested slot is not available from any source
    ReplayFailed,
}

/// What the parser made of the bytes of a message.
#[derive(Debug)]
pub enum Parsed<M, E> {
    /// A message, and the accounts that it names if it is a transaction
    Message { message: M, account_keys: Option<Vec<[u8; 32]>> },
    /// A keep-alive
    Ping,
    /// Neither
    Error(E),
}

/// What a subscriber gets of a parsed message: keep-alives are passed over, and so are
/// transactions that passed the bloom filter without naming a wanted account.
pub fn keep_parsed<M, E>(filter: &ShmPreFilter, parsed: Parsed<M, E>) -> (r: Option<
    Result<M, ReceiveError<E>>,
>)
    ensures
        match parsed {
            Parsed::Message { message, account_keys } => if account_keys matches Some(keys)
                && !filter.wants_accounts(keys@) {
                r is None
            } else {
                r == Some(Ok::<M, ReceiveError<E>>(message))
            },
            Parsed::Ping => r is None,
            Parsed::Error(error) => r == Some(Err::<M, ReceiveError<E>>(ReceiveError::Parse(error))),
        },
{
    match parsed {
        Parsed::Message { message, account_keys } => {
            if let Some(keys) = account_keys {
                if !filter.confirms(&keys) {
                    return None;
                }
            }
            Some(Ok(message))
        },
        Parsed::Ping => None,
        Parsed::Error(error) => Some(Err(ReceiveError::Parse(error))),
    }
}

// --- Backoff ---

/// How long to wait between attempts to connect, in nanoseconds.
#[derive(Debug, Clone, Copy, PartialEq, Eq, Structural)]
pub struct Backoff {
    pub current_interval: u128,
    pub initial_interval: u128,
    pub max_interval: u128,
}

impl Backoff {
    pub fn new(initial_interval: u128, max_interval: u128) -> (r: Self)
        ensures
            r == (Backoff { current_interval: initial_interval, initial_interval, max_interval }),
    {
        Backoff { current_interval: initial_interval, initial_interval, max_interval }
    }

    /// Goes on to the next interval after a wait: the one given, which is the current interval
    /// scaled by the configured multiplier, but never more than the largest one.
    pub fn advance(&mut self, scaled: u128)
        ensures
            *final(self) == (Backoff {
                current_interval: if scaled <= old(self).max_interval {
                    scaled
                } else {
                    old(self).max_interval
                },
                ..*old(self)
            }),
    {
        self.current_interval = if scaled <= self.max_interval {
            scaled
        } else {
            self.max_interval
        };
    }

    /// Starts over with the first interval.
    pub fn reset(&mut self)
        ensures
            *final(self) == (Backoff {
                current_interval: old(self).initial_interval,
                ..*old(self)
            }),
    {
        self.current_interval = self.initial_interval;
    }
}

// --- Reconnecting ---

/// What a reconnecting source is waiting to be told.
#[derive(Debug, Clone, Copy, PartialEq, Eq, Structural)]
pub enum ReconnectPhase {
    /// Whether the subscription was made
    Subscribe,
    /// The next message
    Receive,
    /// Whether all sources have failed to replay
    ReplayVerdict,
    /// That the wait is over
    Sleep,
    /// Nothing: it has failed for good
    Failed,
}

/// What a reconnecting source is told.
#[derive(Debug, Clone, Copy, PartialEq, Eq, Structural)]
pub enum ReconnectEvent {
    Subscribed,
    SubscribeFailed,
    /// A message came
    Message,
    /// The source cannot replay from the requested slot
    ReplayFailed,
    /// Whether this was the last source that could have
    ReplayVerdict(bool),
    /// Another error came
    ReceiveFailed,
    /// The stream ended
    Ended,
    Slept,
}

/// What a reconnecting source asks for.
#[derive(Debug, Clone, Copy, PartialEq, Eq, Structural)]
pub enum ReconnectAction {
    /// Subscribe
    Subscribe,
    /// Start the backoff over, then receive
    ResetAndReceive,
    /// Receive
    Receive,
    /// Hand the message on, then receive
    Deliver,
    /// Report that replay failed here
    ReportReplayFailed,
    /// Drop the subscription, if there is one, and sleep for the backoff's interval
    Sleep,
    /// Hand the error on and end
    FailReplay,
}

/// A source that subscribes again when its subscription fails.
#[derive(Debug, Clone, Copy, PartialEq, Eq, Structural)]
pub struct Reconnect {
    pub phase: ReconnectPhase,
}

impl Reconnect {
    /// The event is one that the source waits for.
    pub open spec fn expects(self, event: ReconnectEvent) -> bool {
        match self.phase {
            ReconnectPhase::Subscribe => event is Subscribed || event is SubscribeFailed,
            ReconnectPhase::Receive => event is Message || event is ReplayFailed
                || event is ReceiveFailed || event is Ended,
            ReconnectPhase::ReplayVerdict => event is ReplayVerdict,
            ReconnectPhase::Sleep => event is Slept,
            ReconnectPhase::Failed => false,
        }
    }

    /// What the source waits for, and asks for, after `event`.
    pub open spec fn next(self, event: ReconnectEvent) -> (ReconnectPhase, ReconnectAction) {
        match event {
            ReconnectEvent::Subscribed => (
                ReconnectPhase::Receive,
                ReconnectAction::ResetAndReceive,
            ),
            ReconnectEvent::Message => (ReconnectPhase::Receive, ReconnectAction::Deliver),
            ReconnectEvent::ReplayFailed => (
                ReconnectPhase::ReplayVerdict,
                ReconnectAction::ReportReplayFailed,
            ),
            ReconnectEvent::ReplayVerdict(true) => (
                ReconnectPhase::Failed,
                ReconnectAction::FailReplay,
            ),
            ReconnectEvent::SubscribeFailed
            | ReconnectEvent::ReplayVerdict(false)
            | ReconnectEvent::ReceiveFailed
            | ReconnectEvent::Ended => (ReconnectPhase::Sleep, ReconnectAction::Sleep),
            ReconnectEvent::Slept => (ReconnectPhase::Subscribe, ReconnectAction::Subscribe),
        }
    }

    /// A source that is about to subscribe.
    pub fn new() -> (r: Self)
        ensures
            r.phase == ReconnectPhase::Subscribe,
    {
        Reconnect { phase: ReconnectPhase::Subscribe }
    }

    /// Takes the event that the source waits for and says what to do next.
    pub fn step(&mut self, event: ReconnectEvent) -> (action: ReconnectAction)
        requires
            old(self).expects(event),
        ensures
            (final(self).phase, action) == old(self).next(event),
    {
        match event {
            ReconnectEvent::Subscribed => {
                self.phase = ReconnectPhase::Receive;
                ReconnectAction::ResetAndReceive
            },
            ReconnectEvent::Message => {
                self.phase = ReconnectPhase::Receive;
                ReconnectAction::Deliver
            },
            ReconnectEvent::ReplayFailed => {
                self.phase = ReconnectPhase::ReplayVerdict;
                ReconnectAction::ReportReplayFailed
            },
            ReconnectEvent::ReplayVerdict(last) => {
                if last {
                    self.phase = ReconnectPhase::Failed;
                    ReconnectAction::FailReplay
                } else {
                    self.phase = ReconnectPhase::Sleep;
                    ReconnectAction::Sleep
                }
            },
            ReconnectEvent::SubscribeFailed
            | ReconnectEvent::ReceiveFailed
            | ReconnectEvent::Ended => {
                self.phase = ReconnectPhase::Sleep;
                ReconnectAction::Sleep
            },
            ReconnectEvent::Slept => {
                self.phase = ReconnectPhase::Subscribe;
                ReconnectAction::Subscribe
            },
        }
    }
}

/// A reconnecting source gives up in one case only: when replay has failed at every source.
/// Whatever else goes wrong, it sleeps and then subscribes again.
pub proof fn lemma_source_gives_up_only_on_replay(source: Reconnect, event: ReconnectEvent)
    requires
        source.expects(event),
    ensures
        source.next(event).0 is Failed <==> event == ReconnectEvent::ReplayVerdict(true),
        event is SubscribeFailed || event is ReceiveFailed || event is Ended || event
            == ReconnectEvent::ReplayVerdict(false) ==> source.next(event).1 is Sleep && (
        Reconnect { phase: source.next(event).0 }).next(ReconnectEvent::Slept).1 is Subscribe,
{
}

/// Every message that is received is handed on.
pub proof fn lemma_source_delivers_every_message(source: Reconnect)
    requires
        source.expects(ReconnectEvent::Message),
    ensures
        source.next(ReconnectEvent::Message) == (
            ReconnectPhase::Receive,
            ReconnectAction::Deliver,
        ),
{
}

// --- Subscriptions ---

/// A source as the configuration names it. `C` is all that is configured of it.
#[derive(Debug)]
pub struct SourceConfig<C> {
    pub name: String,
    pub config: C,
}

/// A source that was subscribed to. `S` is its stream of messages.
#[derive(Debug)]
pub struct Subscription<C, S> {
    pub name: String,
    pub config: C,
    pub stream: S,
}

/// How a subscription begins.
#[derive(Debug, Clone, Copy, PartialEq, Eq, Structural)]
pub enum SubscriptionStart {
    /// With nothing: the stream subscribes once it is polled, as `source` says, and waits
    /// between its attempts as `backoff` says
    Lazy { source: Reconnect, backoff: Backoff },
    /// By subscribing, once and for all: if that fails there is no subscription
    SubscribeFirst,
}

/// Where to begin with a source, given the first and the largest interval between attempts to
/// connect, in nanoseconds, if the source is configured to reconnect.
pub fn subscription_start(reconnect: Option<(u128, u128)>) -> (r: SubscriptionStart)
    ensures
        match reconnect {
            Some((initial_interval, max_interval)) => r == (SubscriptionStart::Lazy {
                source: Reconnect { phase: ReconnectPhase::Subscribe },
                backoff: Backoff {
                    current_interval: initial_interval,
                    initial_interval,
                    max_interval,
                },
            }),
            None => r == SubscriptionStart::SubscribeFirst,
        },
{
    match reconnect {
        Some((initial_interval, max_interval)) => SubscriptionStart::Lazy {
            source: Reconnect::new(),
            backoff: Backoff::new(initial_interval, max_interval),
        },
        None => SubscriptionStart::SubscribeFirst,
    }
}

impl<C, S> Subscription<C, S> {
    /// The subscription to `source`, given what came of getting its stream. It keeps the name and
    /// the configuration of the source; an error is passed on.
    pub fn new<E>(source: SourceConfig<C>, stream: Result<S, E>) -> (r: Result<Self, E>)
        ensures
            match stream {
                Ok(s) => r == Ok::<Self, E>(
                    Subscription { name: source.name, config: source.config, stream: s },
                ),
                Err(error) => r == Err::<Self, E>(error),
            },
    {
        match stream {
            Ok(stream) => Ok(Subscription { name: source.name, config: source.config, stream }),
            Err(error) => Err(error),
        }
    }
}

/// All sources that were subscribed to.
#[derive(Debug)]
pub struct Subscriptions<C, S> {
    pub streams: Vec<Subscription<C, S>>,
    pub last_polled: usize,
}

/// The index of the first of `sources` with this name.
pub open spec fn find_source<C>(sources: Seq<SourceConfig<C>>, name: Seq<char>) -> Option<int>
    decreases sources.len(),
{
    if sources.len() == 0 {
        None
    } else {
        match find_source(sources.drop_last(), name) {
            Some(i) => Some(i),
            None => if sources.last().name@ == name {
                Some(sources.len() - 1)
            } else {
                None
            },
        }
    }
}

/// The index of the first of `streams` with this name.
pub open spec fn find_stream<C, S>(streams: Seq<Subscription<C, S>>, name: Seq<char>) -> Option<
    int,
>
    decreases streams.len(),
{
    if streams.len() == 0 {
        None
    } else {
        match find_stream(streams.drop_last(), name) {
            Some(i) => Some(i),
            None => if streams.last().name@ == name {
                Some(streams.len() - 1)
            } else {
                None
            },
        }
    }
}

/// The stream is to be removed: no new source has its name, or the first that has it is
/// configured differently.
pub open spec fn stale<C: PartialEq, S>(
    stream: Subscription<C, S>,
    sources: Seq<SourceConfig<C>>,
) -> bool {
    match find_source(sources, stream.name@) {
        None => true,
        Some(i) => !stream.config.eq_spec(&sources[i].config),
    }
}

/// The source is to be added: no stream has its name, or the first that has it is configured
/// differently.
pub open spec fn missing<C: PartialEq, S>(
    source: SourceConfig<C>,
    streams: Seq<Subscription<C, S>>,
) -> bool {
    match find_stream(streams, source.name@) {
        None => true,
        Some(i) => !streams[i].config.eq_spec(&source.config),
    }
}

/// `name` is one of `names`.
pub open spec fn named(names: Seq<String>, name: Seq<char>) -> bool {
    exists|i: int| 0 <= i < names.len() && #[trigger] names[i]@ == name
}

/// What a reload changes: the names of the streams to remove and the sources to add.
#[derive(Debug)]
pub struct Reload<C> {
    pub to_remove: Vec<String>,
    pub to_add: Vec<SourceConfig<C>>,
}

/// What to do next while polling.
#[derive(Debug, Clone, Copy, PartialEq, Eq, Structural)]
pub enum PollAction {
    /// Poll the stream with that index
    Poll(usize),
    /// Return what the stream gave
    Ready,
    /// Return that nothing is there
    Pending,
}

/// The first of `sources` with this name.
fn find_source_index<C>(sources: &Vec<SourceConfig<C>>, name: &String) -> (r: Option<usize>)
    ensures
        match find_source(sources@, name@) {
            Some(i) => r matches Some(j) && j == i && j < sources@.len(),
            None => r is None,
        },
{
    let mut i: usize = 0;
    assert(sources@.take(0) =~= Seq::empty());
    while i < sources.len()
        invariant
            i <= sources.len(),
            find_source(sources@.take(i as int), name@) is None,
        decreases sources.len() - i,
    {
        proof {
            assert(sources@.take(i + 1).drop_last() =~= sources@.take(i as int));
        }
        if sources[i].name == *name {
            proof {
                lemma_find_source_stays(sources@, i + 1, name@);
            }
            return Some(i);
        }
        i += 1;
    }
    assert(sources@.take(i as int) =~= sources@);
    None
}

/// A source found among the first `n` is found among all.
proof fn lemma_find_source_stays<C>(sources: Seq<SourceConfig<C>>, n: int, name: Seq<char>)
    requires
        0 <= n <= sources.len(),
        find_source(sources.take(n), name) is Some,
    ensures
        find_source(sources, name) == find_source(sources.take(n), name),
    decreases sources.len() - n,
{
    if n < sources.len() {
        assert(sources.take(n + 1).drop_last() =~= sources.take(n));
        lemma_find_source_stays(sources, n + 1, name);
    } else {
        assert(sources.take(n) =~= sources);
    }
}

/// The first of `streams` with this name.
fn find_stream_index<C, S>(streams: &Vec<Subscription<C, S>>, name: &String) -> (r: Option<usize>)
    ensures
        match find_stream(streams@, name@) {
            Some(i) => r matches Some(j) && j == i && j < streams@.len(),
            None => r is None,
        },
{
    let mut i: usize = 0;
    assert(streams@.take(0) =~= Seq::empty());
    while i < streams.len()
        invariant
            i <= streams.len(),
            find_stream(streams@.take(i as int), name@) is None,
        decreases streams.len() - i,
    {
        proof {
            assert(streams@.take(i + 1).drop_last() =~= streams@.take(i as int));
        }
        if streams[i].name == *name {
            proof {
                lemma_find_stream_stays(streams@, i + 1, name@);
            }
            return Some(i);
        }
        i += 1;
    }
    assert(streams@.take(i as int) =~= streams@);
    None
}

/// A stream found among the first `n` is found among all.
proof fn lemma_find_stream_stays<C, S>(
    streams: Seq<Subscription<C, S>>,
    n: int,
    name: Seq<char>,
)
    requires
        0 <= n <= streams.len(),
        find_stream(streams.take(n), name) is Some,
    ensures
        find_stream(streams, name) == find_stream(streams.take(n), name),
    decreases streams.len() - n,
{
    if n < streams.len() {
        assert(streams.take(n + 1).drop_last() =~= streams.take(n));
        lemma_find_stream_stays(streams, n + 1, name);
    } else {
        assert(streams.take(n) =~= streams);
    }
}

/// Whether `name` is one of `names`.
fn is_named(names: &Vec<String>, name: &String) -> (r: bool)
    ensures
        r == named(names@, name@),
{
    let mut i: usize = 0;
    while i < names.len()
        invariant
            i <= names.len(),
            forall|j: int| 0 <= j < i ==> #[trigger] names@[j]@ != name@,
        decreases names.len() - i,
    {
        if names[i] == *name {
            return true;
        }
        i += 1;
    }
    false
}

/// The names that sources have had so far, each once. A name keeps its place for good, so that
/// the place can stand for it.
#[derive(Debug)]
pub struct SourceNames {
    pub names: Vec<String>,
}

impl SourceNames {
    /// No name occurs twice.
    pub open spec fn wf(self) -> bool {
        forall|i: int, j: int|
            0 <= i < j < self.names@.len() ==> #[trigger] self.names@[i]@
                != #[trigger] self.names@[j]@
    }

    pub fn new() -> (r: Self)
        ensures
            r.wf(),
            r.names@ == Seq::<String>::empty(),
    {
        SourceNames { names: Vec::new() }
    }

    /// The place of `name`, which is added if it is not there yet.
    pub fn get_static_name(&mut self, name: &String) -> (r: usize)
        requires
            old(self).wf(),
        ensures
            final(self).wf(),
            r < final(self).names@.len(),
            final(self).names@[r as int]@ == name@,
            named(old(self).names@, name@) ==> final(self).names@ == old(self).names@,
            !named(old(self).names@, name@) ==> final(self).names@ == old(self).names@.push(*name),
    {
        let mut i: usize = 0;
        while i < self.names.len()
            invariant
                i <= self.names.len(),
                self.wf(),
                self.names == old(self).names,
                forall|j: int| 0 <= j < i ==> #[trigger] self.names@[j]@ != name@,
            decreases self.names.len() - i,
        {
            if self.names[i] == *name {
                return i;
            }
            i += 1;
        }
        self.names.push(name.clone());
        i
    }
}

impl<C, S> Subscriptions<C, S> {
    /// The last polled stream is one of the streams, if there are any.
    pub open spec fn wf(self) -> bool {
        self.streams@.len() > 0 ==> self.last_polled < self.streams@.len()
    }

    /// The subscriptions to these streams.
    pub fn new(streams: Vec<Subscription<C, S>>) -> (r: Self)
        ensures
            r.wf(),
            r.streams == streams,
            r.last_polled == 0,
    {
        Subscriptions { streams, last_polled: 0 }
    }

    /// The name of the stream that was polled last.
    pub fn get_last_polled_name(&self) -> (r: &str)
        requires
            self.wf(),
            self.streams@.len() > 0,
        ensures
            r@ == self.streams@[self.last_polled as int].name@,
    {
        self.streams[self.last_polled].name.as_str()
    }

    /// The stream after the last polled one, going round.
    pub open spec fn following(self) -> int {
        (self.last_polled + 1) % (self.streams@.len() as int)
    }

    fn poll_following(&mut self) -> (r: usize)
        requires
            old(self).wf(),
            old(self).streams@.len() > 0,
        ensures
            final(self).wf(),
            final(self).streams == old(self).streams,
            final(self).last_polled == old(self).following(),
            r == old(self).following(),
    {
        let count: usize = self.streams.len();
        let index: usize = (self.last_polled + 1) % count;
        self.last_polled = index;
        index
    }

    /// Begins a round of polling. The stream after the one that was polled last comes first;
    /// the round is over when that one has had its turn.
    pub fn poll_begin(&mut self) -> (r: (usize, PollAction))
        requires
            old(self).wf(),
            old(self).streams@.len() > 0,
        ensures
            final(self).wf(),
            final(self).streams == old(self).streams,
            final(self).last_polled == old(self).following(),
            r == (old(self).last_polled, PollAction::Poll(old(self).following() as usize)),
    {
        let init_index: usize = self.last_polled;
        let index: usize = self.poll_following();
        (init_index, PollAction::Poll(index))
    }

    /// Goes on with the round that began at `init_index` after a stream was polled.
    pub fn poll_next(&mut self, init_index: usize, ready: bool) -> (action: PollAction)
        requires
            old(self).wf(),
            old(self).streams@.len() > 0,
        ensures
            final(self).wf(),
            final(self).streams == old(self).streams,
            ready ==> action == PollAction::Ready && final(self).last_polled == old(
                self).last_polled,
            !ready && old(self).last_polled == init_index ==> action == PollAction::Pending
                && final(self).last_polled == old(self).last_polled,
            !ready && old(self).last_polled != init_index ==> action == PollAction::Poll(
                old(self).following() as usize,
            ) && final(self).last_polled == old(self).following(),
    {
        if ready {
            return PollAction::Ready;
        }
        if self.last_polled == init_index {
            return PollAction::Pending;
        }
        PollAction::Poll(self.poll_following())
    }

    /// Apply the result of `prepare_reload` to update subscriptions. The result is the number of
    /// sources there are now.
    pub fn apply_reload(
        &mut self,
        to_remove: Vec<String>,
        new_streams: Vec<Subscription<C, S>>,
    ) -> (r: usize)
        requires
            old(self).streams@.len() + new_streams@.len() <= usize::MAX,
        ensures
            final(self).wf(),
            final(self).streams@ == old(self).streams@.filter(
                |s: Subscription<C, S>| !named(to_remove@, s.name@),
            ) + new_streams@,
            final(self).last_polled == 0,
            r == final(self).streams@.len(),
    {
        let ghost keep = |s: Subscription<C, S>| !named(to_remove@, s.name@);
        let ghost all = self.streams@;
        let mut rest: Vec<Subscription<C, S>> = Vec::new();
        std::mem::swap(&mut rest, &mut self.streams);
        let mut kept: Vec<Subscription<C, S>> = Vec::new();
        let ghost mut done: int = 0;
        assert(all.skip(0) =~= all);
        assert(all.take(0).filter(keep) =~= Seq::empty()) by {
            reveal(Seq::filter);
        }
        while rest.len() > 0
            invariant
                0 <= done <= all.len(),
                rest@ == all.skip(done),
                keep == (|s: Subscription<C, S>| !named(to_remove@, s.name@)),
                kept@ == all.take(done).filter(keep),
                self.streams@.len() == 0,
            decreases rest.len(),
        {
            let stream = rest.remove(0);
            proof {
                reveal(Seq::filter);
                assert(stream == all[done]);
                assert(all.take(done + 1).drop_last() =~= all.take(done));
                assert(all.take(done + 1).last() == stream);
                done = done + 1;
                assert(rest@ =~= all.skip(done));
            }
            if !is_named(&to_remove, &stream.name) {
                kept.push(stream);
            }
        }
        proof {
            assert(all.take(done) =~= all);
        }
        let mut new_streams = new_streams;
        kept.append(&mut new_streams);
        self.streams = kept;
        self.last_polled = 0;
        self.streams.len()
    }
}

impl<C: PartialEq, S> Subscriptions<C, S> {
    /// Prepare reload by computing changes: the names of the streams to remove, and the sources
    /// to subscribe to and add.
    pub fn prepare_reload(&self, new_sources: Vec<SourceConfig<C>>) -> (r: Reload<C>)
        requires
            C::obeys_eq_spec(),
        ensures
            r.to_remove@ == self.streams@.filter(
                |s: Subscription<C, S>| stale(s, new_sources@),
            ).map_values(|s: Subscription<C, S>| s.name),
            r.to_add@ == new_sources@.filter(|s: SourceConfig<C>| missing(s, self.streams@)),
    {
        let ghost sources = new_sources@;
        let ghost out = |s: Subscription<C, S>| stale(s, sources);
        let ghost name_of = |s: Subscription<C, S>| s.name;
        // collect streams for removal
        let mut to_remove: Vec<String> = Vec::new();
        let mut i: usize = 0;
        assert(self.streams@.take(0).filter(out).map_values(name_of) =~= Seq::empty()) by {
            reveal(Seq::filter);
        }
        while i < self.streams.len()
            invariant
                C::obeys_eq_spec(),
                i <= self.streams.len(),
                sources == new_sources@,
                out == (|s: Subscription<C, S>| stale(s, sources)),
                name_of == (|s: Subscription<C, S>| s.name),
                to_remove@ == self.streams@.take(i as int).filter(out).map_values(name_of),
            decreases self.streams.len() - i,
        {
            let stream = &self.streams[i];
            let remove = match find_source_index(&new_sources, &stream.name) {
                None => true,
                Some(j) => !stream.config.eq(&new_sources[j].config),
            };
            proof {
                reveal(Seq::filter);
                assert(self.streams@.take(i + 1).drop_last() =~= self.streams@.take(i as int));
                assert(self.streams@.take(i + 1).last() == self.streams@[i as int]);
                assert(remove == stale(self.streams@[i as int], sources));
            }
            let ghost before = self.streams@.take(i as int).filter(out);
            if remove {
                to_remove.push(stream.name.clone());
                assert(before.push(self.streams@[i as int]).map_values(name_of)
                    =~= before.map_values(name_of).push(self.streams@[i as int].name));
            }
            i += 1;
        }
        assert(self.streams@.take(i as int) =~= self.streams@);
        // collect sources to add
        let ghost wanted = |s: SourceConfig<C>| missing(s, self.streams@);
        let mut to_add: Vec<SourceConfig<C>> = Vec::new();
        let mut rest = new_sources;
        let ghost mut done: int = 0;
        assert(sources.skip(0) =~= sources);
        assert(sources.take(0).filter(wanted) =~= Seq::empty()) by {
            reveal(Seq::filter);
        }
        while rest.len() > 0
            invariant
                C::obeys_eq_spec(),
                0 <= done <= sources.len(),
                rest@ == sources.skip(done),
                wanted == (|s: SourceConfig<C>| missing(s, self.streams@)),
                to_add@ == sources.take(done).filter(wanted),
            decreases rest.len(),
        {
            let source = rest.remove(0);
            proof {
                reveal(Seq::filter);
                assert(source == sources[done]);
                assert(sources.take(done + 1).drop_last() =~= sources.take(done));
                assert(sources.take(done + 1).last() == source);
                done = done + 1;
                assert(rest@ =~= sources.skip(done));
            }
            let add = match find_stream_index(&self.streams, &source.name) {
                Some(j) => !self.streams[j].config.eq(&source.config),
                None => true,
            };
            if add {
                to_add.push(source);
            }
        }
        assert(sources.take(done) =~= sources);
        Reload { to_remove, to_add }
    }
}

} // verus!
