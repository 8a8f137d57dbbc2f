//! The authentication handshake of one connection.
//!
//! The first message must be an `AuthRequest`; the answer is one
//! `AuthResponse`, and once it is written the connection either goes on as
//! an admitted peer or closes.
use vstd::prelude::*;

use crate::peer::Peer;
use crate::protocol::{status_code, AuthRequest, AuthResponse, Payload, Result, Status};
use crate::registry::PeersContainer;

verus! {

/// Where a connection stands in the handshake.
#[derive(Clone, Copy, Debug, PartialEq, Eq, Structural)]
pub enum ConnectionState {
    /// Waiting for the client's first message.
    WaitingAuthorization,
    /// The answer is buffered; `true` where the client was admitted.
    RespondingAuthorization(bool),
    /// Admitted: the session runs.
    Connected,
    /// The connection is over; nothing more is read.
    Closed,
}

/// What the connection's task has to report to the handshake.
#[derive(Clone, Debug, PartialEq, Eq)]
pub enum HandshakeEvent {
    /// The first decoded message, or `None` where the stream ended first.
    Received(Option<Payload>),
    /// The buffered answer has been written out.
    Flushed,
}

/// What the connection's task has to do next.
#[derive(Clone, Copy, Debug, PartialEq, Eq, Structural)]
pub enum HandshakeAction {
    /// Buffer this answer and write it out.
    Respond(AuthResponse),
    /// Nothing to do for this event; in particular nothing more is read.
    Wait,
    /// The client is admitted: run the session.
    StartSession,
    /// Close the socket; nothing more is read.
    Close,
}

/// Checks a client's credentials. No credential store is consulted here:
/// every request is accepted.
pub fn verify_credentials(request: &AuthRequest) -> (r: bool)
    ensures
        r,
{
    true
}

/// The answer that `status` gives, with no result.
pub open spec fn bare_response(status: Status) -> AuthResponse {
    AuthResponse { status: status_code(status), result: None }
}

/// One accepted socket, from its first message to its end.
pub struct Connection<T> {
    /// The peer that this connection becomes once admitted.
    pub peer: Peer,
    requests_queue: Option<T>,
    state: ConnectionState,
}

impl<T> Connection<T> {
    /// Where the handshake stands.
    pub closed spec fn current_state(&self) -> ConnectionState {
        self.state
    }

    /// The peer that this connection is or will be.
    pub closed spec fn peer_view(&self) -> Peer {
        self.peer
    }

    /// The outbound handle that admission will hand to the registry.
    pub closed spec fn pending_handle(&self) -> Option<T> {
        self.requests_queue
    }

    /// Before admission the connection holds its handle and no ID; once
    /// admitted it holds an ID.
    pub closed spec fn wf(&self) -> bool {
        &&& self.peer.codec.wf()
        &&& self.state == ConnectionState::WaitingAuthorization ==> {
            &&& self.peer.id is None
            &&& self.requests_queue is Some
        }
        &&& (self.state == ConnectionState::RespondingAuthorization(true) || self.state
            == ConnectionState::Connected) ==> self.peer.id is Some
    }

    /// What answering the first message `message` does, with the registry
    /// going from `peers` to `peers_after`.
    pub open spec fn authorization(
        self,
        message: Option<Payload>,
        peers: PeersContainer<T>,
        response: AuthResponse,
        after: Self,
        peers_after: PeersContainer<T>,
    ) -> bool {
        &&& after.peer_view().codec == self.peer_view().codec
        &&& match message {
            Some(Payload::AuthRequest(_)) => {
                let admitted = after.peer_view().id is Some;
                &&& peers.admission(None, self.pending_handle()->0, admitted, peers_after, after.peer_view().id)
                &&& admitted ==> {
                    &&& response == AuthResponse {
                        status: status_code(Status::Success),
                        result: Some(Result { user_id: after.peer_view().id->0 }),
                    }
                    &&& after.current_state() == ConnectionState::RespondingAuthorization(true)
                }
                &&& !admitted ==> {
                    &&& response == bare_response(Status::ServerIsFull)
                    &&& after.current_state() == ConnectionState::RespondingAuthorization(false)
                }
            },
            _ => {
                &&& response == bare_response(Status::InvalidCredentials)
                &&& after.current_state() == ConnectionState::RespondingAuthorization(false)
                &&& after.peer_view().id is None
                &&& peers_after == peers
            },
        }
    }

    /// What the end of writing the answer does: `connected` tells whether
    /// the session starts.
    pub open spec fn flush(self, connected: bool, after: Self) -> bool {
        &&& self.current_state() is RespondingAuthorization
        &&& connected == self.current_state()->RespondingAuthorization_0
        &&& after.current_state() == (if connected {
            ConnectionState::Connected
        } else {
            ConnectionState::Closed
        })
        &&& after.peer_view() == self.peer_view()
    }

    /// A connection that waits for its first message; `requests_queue` is
    /// the handle through which the server will send it messages.
    pub fn new(requests_queue: T) -> (r: Self)
        ensures
            r.wf(),
            r.current_state() == ConnectionState::WaitingAuthorization,
            r.pending_handle() == Some(requests_queue),
            r.peer_view().id is None,
            r.peer_view().codec.input() == Seq::<u8>::empty(),
            r.peer_view().codec.output() == Seq::<u8>::empty(),
            !r.peer_view().codec.closed(),
    {
        Connection {
            peer: Peer::new(),
            requests_queue: Some(requests_queue),
            state: ConnectionState::WaitingAuthorization,
        }
    }

    /// Where the handshake stands.
    pub fn state(&self) -> (r: ConnectionState)
        ensures
            r == self.current_state(),
    {
        self.state
    }

    fn send_response(&mut self, status: Status, result: Option<Result>) -> (r: AuthResponse)
        ensures
            r == (AuthResponse { status: status_code(status), result }),
            final(self).current_state() == ConnectionState::RespondingAuthorization(
                status == Status::Success,
            ),
            final(self).peer == old(self).peer,
            final(self).pending_handle() == old(self).pending_handle(),
    {
        let response = AuthResponse { status: status.code(), result };
        self.state = ConnectionState::RespondingAuthorization(status == Status::Success);
        response
    }

    /// Answers the client's first message, `None` where the stream ended
    /// before one came. An `AuthRequest` whose credentials pass is admitted
    /// into `peers` when a slot is free; anything else is refused. The
    /// answer is returned for the caller to buffer.
    pub fn on_message(&mut self, message: Option<Payload>, peers: &mut PeersContainer<T>) -> (r:
        AuthResponse)
        requires
            old(self).wf(),
            old(self).current_state() == ConnectionState::WaitingAuthorization,
            old(peers).wf(),
        ensures
            final(self).wf(),
            final(peers).wf(),
            old(self).authorization(message, *old(peers), r, *final(self), *final(peers)),
    {
        let credentials = match message {
            Some(Payload::AuthRequest(credentials)) => credentials,
            _ => {
                return self.send_response(Status::InvalidCredentials, None);
            },
        };
        if !verify_credentials(&credentials) {
            return self.send_response(Status::InvalidCredentials, None);
        }
        let mut requests_queue = None;
        std::mem::swap(&mut requests_queue, &mut self.requests_queue);
        let handle = match requests_queue {
            Some(handle) => handle,
            None => {
                return self.send_response(Status::InvalidCredentials, None);
            },
        };
        let _ = peers.try_insert_peer(&mut self.peer, handle);
        match self.peer.id {
            None => self.send_response(Status::ServerIsFull, None),
            Some(user_id) => self.send_response(Status::Success, Some(Result { user_id })),
        }
    }

    /// The answer has been written: the session starts where the client was
    /// admitted (`true`), and the connection closes otherwise.
    pub fn response_flushed(&mut self) -> (r: bool)
        requires
            old(self).wf(),
            old(self).current_state() is RespondingAuthorization,
        ensures
            final(self).wf(),
            old(self).flush(r, *final(self)),
    {
        let success = match self.state {
            ConnectionState::RespondingAuthorization(success) => success,
            _ => false,
        };
        self.state = if success {
            ConnectionState::Connected
        } else {
            ConnectionState::Closed
        };
        success
    }

    /// One step of the handshake: what `event` does in the current state.
    pub open spec fn step(
        self,
        event: HandshakeEvent,
        peers: PeersContainer<T>,
        action: HandshakeAction,
        after: Self,
        peers_after: PeersContainer<T>,
    ) -> bool {
        match (self.current_state(), event) {
            (ConnectionState::WaitingAuthorization, HandshakeEvent::Received(message)) => {
                &&& action is Respond
                &&& self.authorization(message, peers, action->Respond_0, after, peers_after)
            },
            (ConnectionState::RespondingAuthorization(success), HandshakeEvent::Flushed) => {
                &&& action == (if success {
                    HandshakeAction::StartSession
                } else {
                    HandshakeAction::Close
                })
                &&& self.flush(success, after)
                &&& peers_after == peers
            },
            (state, _) => {
                &&& action == (match state {
                    ConnectionState::Connected => HandshakeAction::StartSession,
                    ConnectionState::Closed => HandshakeAction::Close,
                    _ => HandshakeAction::Wait,
                })
                &&& after == self
                &&& peers_after == peers
            },
        }
    }

    /// Takes the handshake one step on `event`: answers the first message,
    /// starts the session or closes once the answer is written, and ignores
    /// what does not fit the current state.
    pub fn poll(&mut self, event: HandshakeEvent, peers: &mut PeersContainer<T>) -> (r:
        HandshakeAction)
        requires
            old(self).wf(),
            old(peers).wf(),
        ensures
            final(self).wf(),
            final(peers).wf(),
            old(self).step(event, *old(peers), r, *final(self), *final(peers)),
    {
        match (self.state, event) {
            (ConnectionState::WaitingAuthorization, HandshakeEvent::Received(message)) => {
                HandshakeAction::Respond(self.on_message(message, peers))
            },
            (ConnectionState::RespondingAuthorization(_), HandshakeEvent::Flushed) => {
                if self.response_flushed() {
                    HandshakeAction::StartSession
                } else {
                    HandshakeAction::Close
                }
            },
            (ConnectionState::Connected, _) => HandshakeAction::StartSession,
            (ConnectionState::Closed, _) => HandshakeAction::Close,
            _ => HandshakeAction::Wait,
        }
    }

    /// Gives the peer's ID, if any, back to `peers`.
    pub fn release(&mut self, peers: &mut PeersContainer<T>)
        requires
            old(peers).wf(),
        ensures
            final(peers).wf(),
            final(self).peer_view().id is None,
            match old(self).peer_view().id {
                Some(id) => !final(peers).occupied().contains(id as nat),
                None => *final(peers) == *old(peers),
            },
    {
        self.peer.release(peers);
    }
}

/// A first message that is not an `AuthRequest` is answered with
/// `InvalidCredentials` and no result, admits nobody and leaves the registry
/// and its events as they were; while the answer is written, further input
/// is ignored; once it is written the connection closes, and stays closed.
pub proof fn lemma_rejection_closes<T>(
    c0: Connection<T>,
    message: Option<Payload>,
    peers: PeersContainer<T>,
    a1: HandshakeAction,
    c1: Connection<T>,
    peers1: PeersContainer<T>,
    later: HandshakeEvent,
    a2: HandshakeAction,
    c2: Connection<T>,
    peers2: PeersContainer<T>,
    a3: HandshakeAction,
    c3: Connection<T>,
    peers3: PeersContainer<T>,
    any: HandshakeEvent,
    a4: HandshakeAction,
    c4: Connection<T>,
    peers4: PeersContainer<T>,
)
    requires
        c0.current_state() == ConnectionState::WaitingAuthorization,
        !(message matches Some(Payload::AuthRequest(_))),
        c0.step(HandshakeEvent::Received(message), peers, a1, c1, peers1),
        later is Received,
        c1.step(later, peers1, a2, c2, peers2),
        c2.step(HandshakeEvent::Flushed, peers2, a3, c3, peers3),
        c3.step(any, peers3, a4, c4, peers4),
    ensures
        a1 == HandshakeAction::Respond(bare_response(Status::InvalidCredentials)),
        bare_response(Status::InvalidCredentials) == (AuthResponse { status: 1, result: None }),
        c1.peer_view().id is None,
        peers1 == peers,
        a2 == HandshakeAction::Wait,
        c2 == c1 && peers2 == peers1,
        a3 == HandshakeAction::Close,
        c3.current_state() == ConnectionState::Closed,
        peers3 == peers,
        a4 == HandshakeAction::Close,
        peers4 == peers,
{
}

} // verus!
