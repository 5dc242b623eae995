//! The messages between the terminal client and the collector service, and
//! how the service answers a client over one connection.
use vstd::prelude::*;

use crate::collector::ProcessSnapshot;

verus! {

/// What a client asks the service.
#[derive(Clone, Copy, Debug, PartialEq, Eq, Structural)]
pub enum ClientRequest {
    Subscribe,
    Ping,
}

/// What the service sends a client.
#[derive(Debug)]
pub enum ServerMessage {
    /// The whole history and the latest snapshot.
    State { history: Vec<ProcessSnapshot>, latest: Option<ProcessSnapshot> },
    /// One new snapshot.
    Snapshot { snapshot: ProcessSnapshot },
    Pong,
    Error { message: String },
}

/// Where one client connection stands.
#[derive(Clone, Copy, Debug, PartialEq, Eq, Structural)]
pub enum Session {
    /// Connected; the client's request has not been read yet.
    AwaitingRequest,
    /// The client subscribed and receives every new snapshot.
    Subscribed,
    /// Nothing more is sent on the connection.
    Finished,
}

/// What happened on a client connection.
#[derive(Clone, Copy, Debug, PartialEq, Eq, Structural)]
pub enum SessionEvent {
    /// The client's request was read.
    Request(ClientRequest),
    /// The client closed the connection without a request.
    Hangup,
    /// The service published a new snapshot.
    Published,
    /// The client fell behind and missed published snapshots.
    Lagged,
    /// The service stopped publishing.
    Closed,
}

/// What the service sends in answer to an event.
#[derive(Clone, Copy, Debug, PartialEq, Eq, Structural)]
pub enum SessionAction {
    Nothing,
    SendPong,
    /// The whole history and the latest snapshot.
    SendState,
    /// The snapshot just published.
    SendSnapshot,
}

/// The service's side of the protocol: a ping is answered with a pong and
/// ends the connection; a subscription is answered with the whole state and
/// then with each published snapshot; a client that fell behind gets the
/// whole state again; the connection ends when the client hangs up before
/// asking or when publishing stops. An event that cannot occur in a state
/// changes nothing.
pub open spec fn session_step(state: Session, event: SessionEvent) -> (Session, SessionAction) {
    match (state, event) {
        (Session::AwaitingRequest, SessionEvent::Request(ClientRequest::Ping)) => (
            Session::Finished,
            SessionAction::SendPong,
        ),
        (Session::AwaitingRequest, SessionEvent::Request(ClientRequest::Subscribe)) => (
            Session::Subscribed,
            SessionAction::SendState,
        ),
        (Session::AwaitingRequest, SessionEvent::Hangup) => (
            Session::Finished,
            SessionAction::Nothing,
        ),
        (Session::Subscribed, SessionEvent::Published) => (
            Session::Subscribed,
            SessionAction::SendSnapshot,
        ),
        (Session::Subscribed, SessionEvent::Lagged) => (
            Session::Subscribed,
            SessionAction::SendState,
        ),
        (Session::Subscribed, SessionEvent::Closed) => (Session::Finished, SessionAction::Nothing),
        _ => (state, SessionAction::Nothing),
    }
}

impl Session {
    /// The state after `event` and what to send for it.
    pub fn step(self, event: SessionEvent) -> (out: (Session, SessionAction))
        ensures
            out == session_step(self, event),
    {
        match (self, event) {
            (Session::AwaitingRequest, SessionEvent::Request(ClientRequest::Ping)) => (
                Session::Finished,
                SessionAction::SendPong,
            ),
            (Session::AwaitingRequest, SessionEvent::Request(ClientRequest::Subscribe)) => (
                Session::Subscribed,
                SessionAction::SendState,
            ),
            (Session::AwaitingRequest, SessionEvent::Hangup) => (
                Session::Finished,
                SessionAction::Nothing,
            ),
            (Session::Subscribed, SessionEvent::Published) => (
                Session::Subscribed,
                SessionAction::SendSnapshot,
            ),
            (Session::Subscribed, SessionEvent::Lagged) => (
                Session::Subscribed,
                SessionAction::SendState,
            ),
            (Session::Subscribed, SessionEvent::Closed) => (
                Session::Finished,
                SessionAction::Nothing,
            ),
            _ => (self, SessionAction::Nothing),
        }
    }
}

/// Once finished, a connection stays finished and nothing more is sent on
/// it, whatever happens.
pub proof fn lemma_finished_session_is_silent(event: SessionEvent)
    ensures
        session_step(Session::Finished, event) == (Session::Finished, SessionAction::Nothing),
{
}

/// A subscriber stays subscribed, and is sent something, until publishing
/// stops.
pub proof fn lemma_subscriber_hears_every_publication(event: SessionEvent)
    requires
        event is Published || event is Lagged,
    ensures
        session_step(Session::Subscribed, event).0 == Session::Subscribed,
        session_step(Session::Subscribed, event).1 != SessionAction::Nothing,
{
}

/// How the service answers over a connection: a ping gets a pong and ends
/// the connection; a subscription gets the whole state and stays open; a
/// subscriber gets each published snapshot, the whole state again when it
/// fell behind, and the connection ends when publishing stops; a client
/// that hangs up before asking ends it without an answer.
pub proof fn lemma_protocol_answers()
    ensures
        session_step(Session::AwaitingRequest, SessionEvent::Request(ClientRequest::Ping)) == (
            Session::Finished,
            SessionAction::SendPong,
        ),
        session_step(Session::AwaitingRequest, SessionEvent::Request(ClientRequest::Subscribe)) == (
            Session::Subscribed,
            SessionAction::SendState,
        ),
        session_step(Session::Subscribed, SessionEvent::Published) == (
            Session::Subscribed,
            SessionAction::SendSnapshot,
        ),
        session_step(Session::Subscribed, SessionEvent::Lagged) == (
            Session::Subscribed,
            SessionAction::SendState,
        ),
        session_step(Session::Subscribed, SessionEvent::Closed) == (
            Session::Finished,
            SessionAction::Nothing,
        ),
        session_step(Session::AwaitingRequest, SessionEvent::Hangup) == (
            Session::Finished,
            SessionAction::Nothing,
        ),
{
}

} // verus!
