use embercore::connection::{verify_credentials, Connection, ConnectionState, HandshakeAction, HandshakeEvent};
use embercore::protocol::{AuthRequest, AuthResponse, Payload, Result, Status};
use embercore::registry::PeersContainer;
use embercore::state::{connection_actions, WorldAction};

fn request(login: &str, password: &str) -> Payload {
    Payload::AuthRequest(AuthRequest { login: login.to_string(), password: password.to_string() })
}

#[test]
fn accepted_client_gets_id_and_world_entity() {
    let mut peers: PeersContainer<u32> = PeersContainer::new();
    let mut connection = Connection::new(1u32);
    assert_eq!(connection.state(), ConnectionState::WaitingAuthorization);
    let response = connection.on_message(Some(request("u", "p")), &mut peers);
    assert_eq!(
        response,
        AuthResponse { status: Status::Success.code(), result: Some(Result { user_id: 0 }) }
    );
    assert_eq!(response.status, 0);
    assert_eq!(connection.state(), ConnectionState::RespondingAuthorization(true));
    assert!(connection.response_flushed());
    assert_eq!(connection.state(), ConnectionState::Connected);
    assert_eq!(connection.peer.id, Some(0));
    assert_eq!(connection_actions(&mut peers), vec![WorldAction::CreatePlayer(0)]);
    assert!(connection_actions(&mut peers).is_empty());
}

#[test]
fn other_first_message_is_refused_and_closes() {
    let mut peers: PeersContainer<u32> = PeersContainer::new();
    let mut connection = Connection::new(1u32);
    let wrong = Payload::AuthResponse(AuthResponse { status: 0, result: None });
    let response = connection.on_message(Some(wrong), &mut peers);
    assert_eq!(response, AuthResponse { status: 1, result: None });
    assert_eq!(connection.state(), ConnectionState::RespondingAuthorization(false));
    assert!(!connection.response_flushed());
    assert_eq!(connection.state(), ConnectionState::Closed);
    assert!(peers.empty());
    assert!(peers.poll_events(10).is_empty());
}

#[test]
fn stream_end_before_first_message_is_refused() {
    let mut peers: PeersContainer<u32> = PeersContainer::new();
    let mut connection = Connection::new(1u32);
    let response = connection.on_message(None, &mut peers);
    assert_eq!(response, AuthResponse { status: Status::InvalidCredentials.code(), result: None });
    assert!(!connection.response_flushed());
    assert_eq!(connection.state(), ConnectionState::Closed);
}

#[test]
fn full_registry_answers_server_is_full() {
    let mut peers: PeersContainer<u32> = PeersContainer::new();
    for i in 0..64u32 {
        let mut connection = Connection::new(i);
        let response = connection.on_message(Some(request("u", "p")), &mut peers);
        assert_eq!(response.result, Some(Result { user_id: i }));
    }
    assert!(peers.full());
    let mut late = Connection::new(64u32);
    let response = late.on_message(Some(request("u", "p")), &mut peers);
    assert_eq!(response, AuthResponse { status: 2, result: None });
    assert!(!late.response_flushed());
    assert_eq!(late.state(), ConnectionState::Closed);
    assert!(peers.full());
    let mut walk = peers.into_iter();
    let mut count = 0;
    while walk.next().is_some() {
        count += 1;
    }
    assert_eq!(count, 64);
}

#[test]
fn credentials_are_accepted() {
    assert!(verify_credentials(&AuthRequest { login: String::new(), password: String::new() }));
}

#[test]
fn status_codes_match_the_wire() {
    assert_eq!(Status::Success.code(), 0);
    assert_eq!(Status::InvalidCredentials.code(), 1);
    assert_eq!(Status::ServerIsFull.code(), 2);
    assert_eq!(Status::Banned.code(), 3);
    assert_eq!(Status::from_code(2), Some(Status::ServerIsFull));
    assert_eq!(Status::from_code(3), Some(Status::Banned));
    assert_eq!(Status::from_code(4), None);
    assert_eq!(Status::from_code(-1), None);
}

#[test]
fn tick_turns_events_into_world_changes_two_at_a_time() {
    let mut peers: PeersContainer<u32> = PeersContainer::new();
    let mut a = Connection::new(1u32);
    let mut b = Connection::new(2u32);
    a.on_message(Some(request("a", "x")), &mut peers);
    b.on_message(Some(request("b", "y")), &mut peers);
    a.release(&mut peers);
    assert_eq!(
        connection_actions(&mut peers),
        vec![WorldAction::CreatePlayer(0), WorldAction::CreatePlayer(1)]
    );
    assert_eq!(connection_actions(&mut peers), vec![WorldAction::RemovePlayer(0)]);
    assert!(connection_actions(&mut peers).is_empty());
}

#[test]
fn rejected_handshake_ignores_later_input_and_closes() {
    let mut peers: PeersContainer<u32> = PeersContainer::new();
    let mut connection = Connection::new(1u32);
    let wrong = Payload::AuthResponse(AuthResponse { status: 0, result: None });
    let action = connection.poll(HandshakeEvent::Received(Some(wrong)), &mut peers);
    assert_eq!(action, HandshakeAction::Respond(AuthResponse { status: 1, result: None }));
    assert_eq!(connection.peer.id, None);
    let later = connection.poll(HandshakeEvent::Received(Some(request("u", "p"))), &mut peers);
    assert_eq!(later, HandshakeAction::Wait);
    assert!(peers.empty());
    assert!(peers.poll_events(10).is_empty());
    assert_eq!(connection.poll(HandshakeEvent::Flushed, &mut peers), HandshakeAction::Close);
    assert_eq!(connection.state(), ConnectionState::Closed);
    assert_eq!(connection.poll(HandshakeEvent::Received(None), &mut peers), HandshakeAction::Close);
    assert!(peers.empty());
}

#[test]
fn accepted_handshake_starts_the_session() {
    let mut peers: PeersContainer<u32> = PeersContainer::new();
    let mut connection = Connection::new(1u32);
    assert_eq!(connection.poll(HandshakeEvent::Flushed, &mut peers), HandshakeAction::Wait);
    let action = connection.poll(HandshakeEvent::Received(Some(request("u", "p"))), &mut peers);
    assert_eq!(
        action,
        HandshakeAction::Respond(AuthResponse { status: 0, result: Some(Result { user_id: 0 }) })
    );
    assert_eq!(connection.poll(HandshakeEvent::Flushed, &mut peers), HandshakeAction::StartSession);
    assert_eq!(connection.state(), ConnectionState::Connected);
}
