//! The listener supervisor: when to listen, when to serve, when to tear
//! down. It decides; its caller binds, accepts, drives the session and
//! sleeps, and reports back what happened.

use crate::broker::{ManagerView, StreamManager, StreamStateView};
use vstd::prelude::*;

verus! {

/// Seconds to wait after a session before listening again, so that the
/// port is free.
pub const BACKOFF_SECONDS: u64 = 2;

/// Where the supervisor stands.
#[derive(Debug, Clone, Copy, PartialEq, Eq, Structural)]
pub enum SupervisorState {
    /// No stream key is active; nothing is bound.
    AwaitingKey,
    /// The listener is bound and waits for its one connection.
    Listening,
    /// A publisher is connected and its stream is registered.
    Serving,
    /// The session is over, the stream removed, the listener released.
    BackingOff,
}

/// What the caller reports.
#[derive(Debug, Clone, Copy, PartialEq, Eq, Structural)]
pub enum SupervisorEvent {
    /// The key-change notifier fired, or the supervisor was just started.
    KeyChanged,
    /// A publisher connected.
    Accepted,
    /// Binding or accepting failed.
    ListenFailed,
    /// The session returned, with or without an error.
    SessionEnded,
    /// The back-off time has passed.
    BackoffElapsed,
}

/// What the caller is to do next.
#[derive(Debug, Clone, Copy, PartialEq, Eq, Structural)]
pub enum SupervisorAction {
    /// Block on the key-change notifier, then report `KeyChanged`.
    AwaitKey,
    /// Bind the listener on this port and accept one connection; report
    /// `Accepted` or `ListenFailed`.
    Listen(u16),
    /// Drive a session on the connection against the registered stream;
    /// report `SessionEnded` when it returns.
    RunSession,
    /// Release the listener and sleep this many seconds; report
    /// `BackoffElapsed`.
    Backoff(u64),
    /// The report does not fit the state; go on with what was being done.
    Continue,
}

/// Whether a stream key is active and not empty.
pub open spec fn key_active(m: ManagerView) -> bool {
    m.active_key matches Some(k) && k.len() > 0
}

/// What the supervisor does where it is to listen if it can: it listens
/// when a key is active and awaits one otherwise.
pub open spec fn listen_or_await(m: ManagerView) -> (SupervisorState, SupervisorAction) {
    if key_active(m) {
        (SupervisorState::Listening, SupervisorAction::Listen(m.rtmp_port))
    } else {
        (SupervisorState::AwaitingKey, SupervisorAction::AwaitKey)
    }
}

/// The supervisor's next state and the action that goes with it.
///
/// * Awaiting a key, a key change leads to listening if a key is active.
/// * Listening, an accepted connection leads to serving; a failure leads to
///   backing off.
/// * Serving, the end of the session leads to backing off.
/// * Backing off, the end of the back-off leads to listening if a key is
///   active and to awaiting one otherwise.
/// * Any other report changes nothing.
pub open spec fn supervise(state: SupervisorState, event: SupervisorEvent, m: ManagerView) -> (
    SupervisorState,
    SupervisorAction,
) {
    match (state, event) {
        (SupervisorState::AwaitingKey, SupervisorEvent::KeyChanged) => listen_or_await(m),
        (SupervisorState::Listening, SupervisorEvent::Accepted) => (
            SupervisorState::Serving,
            SupervisorAction::RunSession,
        ),
        (SupervisorState::Listening, SupervisorEvent::ListenFailed) => (
            SupervisorState::BackingOff,
            SupervisorAction::Backoff(BACKOFF_SECONDS),
        ),
        (SupervisorState::Serving, SupervisorEvent::SessionEnded) => (
            SupervisorState::BackingOff,
            SupervisorAction::Backoff(BACKOFF_SECONDS),
        ),
        (SupervisorState::BackingOff, SupervisorEvent::BackoffElapsed) => listen_or_await(m),
        _ => (state, SupervisorAction::Continue),
    }
}

/// What a step does to the broker's table: entering service registers the
/// stream afresh, leaving service removes it, and nothing else touches it.
pub open spec fn supervised_streams(
    state: SupervisorState,
    event: SupervisorEvent,
    m: ManagerView,
    key: Seq<char>,
) -> Map<Seq<char>, StreamStateView> {
    match (state, event) {
        (SupervisorState::Listening, SupervisorEvent::Accepted) => m.streams.insert(
            key,
            StreamStateView::fresh(),
        ),
        (SupervisorState::Serving, SupervisorEvent::SessionEnded) => m.streams.remove(key),
        _ => m.streams,
    }
}

/// A call that the supervisor makes on the broker.
pub ghost enum BrokerCall {
    Register,
    Remove,
}

/// The call on the broker that a step makes, if it makes one.
pub open spec fn broker_call(state: SupervisorState, event: SupervisorEvent) -> Option<BrokerCall> {
    match (state, event) {
        (SupervisorState::Listening, SupervisorEvent::Accepted) => Some(BrokerCall::Register),
        (SupervisorState::Serving, SupervisorEvent::SessionEnded) => Some(BrokerCall::Remove),
        _ => None,
    }
}

/// The calls that the supervisor makes on the broker over a run of reports,
/// in order. `brokers[i]` is the broker as report `i` finds it: whatever
/// others did to the active key or the port in between.
pub open spec fn calls_made(
    state: SupervisorState,
    events: Seq<SupervisorEvent>,
    brokers: Seq<ManagerView>,
) -> Seq<BrokerCall>
    decreases events.len(),
{
    if events.len() == 0 || brokers.len() != events.len() {
        Seq::empty()
    } else {
        let next = supervise(state, events[0], brokers[0]).0;
        let rest = calls_made(next, events.skip(1), brokers.skip(1));
        match broker_call(state, events[0]) {
            Some(call) => seq![call] + rest,
            None => rest,
        }
    }
}

/// Whether registrations and removals take turns, given whether the stream
/// is registered at the start.
pub open spec fn alternating(calls: Seq<BrokerCall>, registered: bool) -> bool
    decreases calls.len(),
{
    calls.len() == 0 || match calls[0] {
        BrokerCall::Register => !registered && alternating(calls.skip(1), true),
        BrokerCall::Remove => registered && alternating(calls.skip(1), false),
    }
}

/// The supervisor never registers twice in a row. Over any run of reports,
/// in any order and whatever happens to the stream key meanwhile, the
/// stream is registered only when it is not registered and removed only
/// when it is: after a session, no registration comes before the removal.
pub proof fn lemma_register_and_remove_alternate(
    state: SupervisorState,
    events: Seq<SupervisorEvent>,
    brokers: Seq<ManagerView>,
)
    ensures
        alternating(calls_made(state, events, brokers), state == SupervisorState::Serving),
    decreases events.len(),
{
    if events.len() > 0 && brokers.len() == events.len() {
        let next = supervise(state, events[0], brokers[0]).0;
        let rest = calls_made(next, events.skip(1), brokers.skip(1));
        lemma_register_and_remove_alternate(next, events.skip(1), brokers.skip(1));
        match broker_call(state, events[0]) {
            Some(call) => {
                assert((seq![call] + rest).skip(1) =~= rest);
            },
            None => {},
        }
    }
}

/// The stream is registered exactly while the supervisor serves. A step
/// keeps this so, whatever the report.
pub proof fn lemma_registered_while_serving(
    state: SupervisorState,
    event: SupervisorEvent,
    m: ManagerView,
    key: Seq<char>,
)
    requires
        (state == SupervisorState::Serving) == m.streams.contains_key(key),
    ensures
        (supervise(state, event, m).0 == SupervisorState::Serving) == supervised_streams(
            state,
            event,
            m,
            key,
        ).contains_key(key),
{
}

/// The supervisor of one listener and one stream id.
pub struct Supervisor {
    state: SupervisorState,
}

impl Supervisor {
    /// Where the supervisor stands.
    pub closed spec fn state(&self) -> SupervisorState {
        self.state
    }

    /// A supervisor that awaits a key. Its caller starts it off by
    /// reporting `KeyChanged`.
    pub fn new() -> (s: Self)
        ensures
            s.state() == SupervisorState::AwaitingKey,
    {
        Supervisor { state: SupervisorState::AwaitingKey }
    }

    /// Where the supervisor stands.
    pub fn current(&self) -> (state: SupervisorState)
        ensures
            state == self.state(),
    {
        self.state
    }

    /// Takes a report and decides what is next. The stream `stream_id` is
    /// registered with the broker on entering service and removed from it
    /// on leaving service, here, so that the two cannot come apart.
    pub fn on_event(
        &mut self,
        manager: &mut StreamManager,
        stream_id: &str,
        event: SupervisorEvent,
    ) -> (action: SupervisorAction)
        requires
            old(manager).wf(),
        ensures
            final(manager).wf(),
            (final(self).state(), action) == supervise(old(self).state(), event, old(manager)@),
            final(manager)@ == (ManagerView {
                streams: supervised_streams(old(self).state(), event, old(manager)@, stream_id@),
                ..old(manager)@
            }),
    {
        let state = self.state;
        match (state, event) {
            (SupervisorState::AwaitingKey, SupervisorEvent::KeyChanged) => self.listen_or_await(
                manager,
            ),
            (SupervisorState::Listening, SupervisorEvent::Accepted) => {
                manager.register_stream(stream_id);
                self.state = SupervisorState::Serving;
                SupervisorAction::RunSession
            },
            (SupervisorState::Listening, SupervisorEvent::ListenFailed) => {
                self.state = SupervisorState::BackingOff;
                SupervisorAction::Backoff(BACKOFF_SECONDS)
            },
            (SupervisorState::Serving, SupervisorEvent::SessionEnded) => {
                manager.remove_stream(stream_id);
                self.state = SupervisorState::BackingOff;
                SupervisorAction::Backoff(BACKOFF_SECONDS)
            },
            (SupervisorState::BackingOff, SupervisorEvent::BackoffElapsed) => self.listen_or_await(
                manager,
            ),
            _ => SupervisorAction::Continue,
        }
    }

    fn listen_or_await(&mut self, manager: &StreamManager) -> (action: SupervisorAction)
        ensures
            (final(self).state(), action) == listen_or_await(manager@),
    {
        let active = match manager.get_active_key() {
            Some(k) => !k.as_str().is_empty(),
            None => false,
        };
        if active {
            self.state = SupervisorState::Listening;
            SupervisorAction::Listen(manager.get_rtmp_port())
        } else {
            self.state = SupervisorState::AwaitingKey;
            SupervisorAction::AwaitKey
        }
    }
}

} // verus!
