//! The decisions of a listener: one per bound socket, each reading datagrams,
//! decoding them and handing the messages to one shared channel.

use vstd::prelude::*;

verus! {

/// The life of a listener.
#[derive(Copy, Clone, Debug, PartialEq, Eq, Structural)]
pub enum ListenerState {
    /// Reading datagrams.
    Running,
    /// The read timeout elapsed; the listener has ended.
    TimedOut,
    /// The consumer is gone; the listener has ended.
    Closed,
}

/// What happened to a running listener.
#[derive(Copy, Clone, Debug, PartialEq, Eq, Structural)]
pub enum ListenerEvent {
    /// A datagram arrived and decoded as the expected message.
    Decoded,
    /// A datagram arrived and did not decode: foreign or malformed traffic.
    Rejected,
    /// The read timed out (reported as would-block or as timed-out).
    ReadTimedOut,
    /// Any other read error, taken as transient.
    ReadFailed,
    /// The decoded message could not be handed on: the consumer is gone.
    ForwardFailed,
}

/// What the listener does next.
#[derive(Copy, Clone, Debug, PartialEq, Eq, Structural)]
pub enum ListenerAction {
    /// Hand the decoded message and its sender to the channel.
    Forward,
    /// Read the next datagram.
    Receive,
    /// End the listener.
    Stop,
}

/// The next state and action of a listener in `state` on `event`. Only a read
/// timeout or a lost consumer ends a listener; an ended one stays ended.
pub open spec fn spec_listener_step(state: ListenerState, event: ListenerEvent) -> (
    ListenerState,
    ListenerAction,
) {
    match state {
        ListenerState::Running => match event {
            ListenerEvent::Decoded => (ListenerState::Running, ListenerAction::Forward),
            ListenerEvent::Rejected => (ListenerState::Running, ListenerAction::Receive),
            ListenerEvent::ReadFailed => (ListenerState::Running, ListenerAction::Receive),
            ListenerEvent::ReadTimedOut => (ListenerState::TimedOut, ListenerAction::Stop),
            ListenerEvent::ForwardFailed => (ListenerState::Closed, ListenerAction::Stop),
        },
        _ => (state, ListenerAction::Stop),
    }
}

pub fn listener_step(state: ListenerState, event: ListenerEvent) -> (r: (
    ListenerState,
    ListenerAction,
))
    ensures
        r == spec_listener_step(state, event),
{
    match state {
        ListenerState::Running => match event {
            ListenerEvent::Decoded => (ListenerState::Running, ListenerAction::Forward),
            ListenerEvent::Rejected => (ListenerState::Running, ListenerAction::Receive),
            ListenerEvent::ReadFailed => (ListenerState::Running, ListenerAction::Receive),
            ListenerEvent::ReadTimedOut => (ListenerState::TimedOut, ListenerAction::Stop),
            ListenerEvent::ForwardFailed => (ListenerState::Closed, ListenerAction::Stop),
        },
        _ => (state, ListenerAction::Stop),
    }
}

/// The event that a decoded datagram gives: whether the bytes read as the
/// expected message.
pub fn decode_event<T, E>(decoded: &Result<T, E>) -> (r: ListenerEvent)
    ensures
        r == if decoded is Ok {
            ListenerEvent::Decoded
        } else {
            ListenerEvent::Rejected
        },
{
    match decoded {
        Ok(_) => ListenerEvent::Decoded,
        Err(_) => ListenerEvent::Rejected,
    }
}

/// A listener ends exactly on a read timeout or a lost consumer, and keeps
/// running on every other event.
pub proof fn law_listener_ends(event: ListenerEvent)
    ensures
        (spec_listener_step(ListenerState::Running, event).1 == ListenerAction::Stop) <==> (event
            == ListenerEvent::ReadTimedOut || event == ListenerEvent::ForwardFailed),
        spec_listener_step(ListenerState::Running, event).1 != ListenerAction::Stop
            ==> spec_listener_step(ListenerState::Running, event).0 == ListenerState::Running,
{
}

} // verus!
