use embercore::connection::Connection;
use embercore::peer::Peer;
use embercore::registry::{ConnectionEvent, PeersContainer, CAPACITY};

fn enroll(peers: &mut PeersContainer<u32>, handle: u32) -> Option<u32> {
    let mut peer = Peer::new();
    if peers.try_insert_peer(&mut peer, handle) {
        peer.id
    } else {
        None
    }
}

#[test]
fn admissions_take_lowest_ids_in_order() {
    let mut peers: PeersContainer<u32> = PeersContainer::new();
    assert!(peers.empty());
    for i in 0..5u32 {
        assert_eq!(enroll(&mut peers, 100 + i), Some(i));
    }
    assert!(!peers.empty());
    assert!(!peers.full());
    assert!(peers.has_peer(4));
    assert!(!peers.has_peer(5));
}

#[test]
fn released_slot_is_reused_first() {
    let mut peers: PeersContainer<u32> = PeersContainer::new();
    for i in 0..10u32 {
        assert_eq!(enroll(&mut peers, i), Some(i));
    }
    assert!(peers.try_remove_peer(3));
    assert!(!peers.has_peer(3));
    assert_eq!(enroll(&mut peers, 77), Some(3));
    assert_eq!(enroll(&mut peers, 78), Some(10));
}

#[test]
fn slot_reuse_with_full_table() {
    let mut peers: PeersContainer<u32> = PeersContainer::new();
    for i in 0..64u32 {
        assert_eq!(enroll(&mut peers, i), Some(i));
    }
    assert!(peers.try_remove_peer(63));
    assert_eq!(enroll(&mut peers, 5), Some(63));
}

#[test]
fn sixty_fifth_admission_is_refused() {
    let mut peers: PeersContainer<u32> = PeersContainer::new();
    for i in 0..64u32 {
        assert_eq!(enroll(&mut peers, i), Some(i));
    }
    assert!(peers.full());
    let mut peer = Peer::new();
    assert!(!peers.try_insert_peer(&mut peer, 64));
    assert_eq!(peer.id, None);
    assert_eq!(CAPACITY, 64);
}

#[test]
fn admitted_peer_cannot_be_admitted_twice() {
    let mut peers: PeersContainer<u32> = PeersContainer::new();
    let mut peer = Peer::new();
    assert!(peers.try_insert_peer(&mut peer, 1));
    assert_eq!(peer.id, Some(0));
    assert!(!peers.try_insert_peer(&mut peer, 2));
    assert_eq!(peer.id, Some(0));
    assert!(!peers.has_peer(1));
}

#[test]
fn admitted_ids_are_distinct() {
    let mut peers: PeersContainer<u32> = PeersContainer::new();
    let mut seen = Vec::new();
    for i in 0..64u32 {
        let id = enroll(&mut peers, i).unwrap();
        assert!(!seen.contains(&id));
        seen.push(id);
        if i % 3 == 0 {
            assert!(peers.try_remove_peer(id));
            seen.retain(|x| *x != id);
        }
    }
    let mut walk = peers.into_iter();
    let mut listed = Vec::new();
    while let Some((id, _)) = walk.next() {
        listed.push(id);
    }
    seen.sort();
    assert_eq!(listed, seen);
}

#[test]
fn release_of_free_slot_is_refused() {
    let mut peers: PeersContainer<u32> = PeersContainer::new();
    assert!(!peers.try_remove_peer(0));
    assert!(!peers.try_remove_peer(64));
    assert!(!peers.has_peer(200));
    assert!(peers.poll_events(10).is_empty());
}

#[test]
fn events_follow_admissions_and_releases() {
    let mut peers: PeersContainer<u32> = PeersContainer::new();
    let a = enroll(&mut peers, 1).unwrap();
    let b = enroll(&mut peers, 2).unwrap();
    assert!(peers.try_remove_peer(a));
    assert_eq!(
        peers.poll_events(10),
        vec![
            ConnectionEvent::Connected(a),
            ConnectionEvent::Connected(b),
            ConnectionEvent::Disconnected(a),
        ]
    );
    assert!(peers.poll_events(10).is_empty());
}

#[test]
fn events_are_handed_out_in_bursts() {
    let mut peers: PeersContainer<u32> = PeersContainer::new();
    for i in 0..3u32 {
        enroll(&mut peers, i);
    }
    assert_eq!(
        peers.poll_events(2),
        vec![ConnectionEvent::Connected(0), ConnectionEvent::Connected(1)]
    );
    assert_eq!(peers.poll_events(2), vec![ConnectionEvent::Connected(2)]);
}

#[test]
fn iteration_skips_free_slots_in_ascending_order() {
    let mut peers: PeersContainer<u32> = PeersContainer::new();
    for i in 0..6u32 {
        enroll(&mut peers, 10 * i);
    }
    peers.try_remove_peer(1);
    peers.try_remove_peer(4);
    let mut walk = peers.into_iter();
    let mut seen = Vec::new();
    while let Some((id, handle)) = walk.next() {
        seen.push((id, *handle));
    }
    assert_eq!(seen, vec![(0, 0), (2, 20), (3, 30), (5, 50)]);
}

#[test]
fn dropping_an_admitted_peer_releases_its_id() {
    let mut peers: PeersContainer<u32> = PeersContainer::new();
    let mut peer = Peer::new();
    assert!(peers.try_insert_peer(&mut peer, 9));
    let id = peer.id.unwrap();
    peer.release(&mut peers);
    assert!(!peers.has_peer(id));
    assert_eq!(peer.id, None);
    assert_eq!(
        peers.poll_events(10),
        vec![ConnectionEvent::Connected(id), ConnectionEvent::Disconnected(id)]
    );
}

#[test]
fn aborted_connection_releases_its_id() {
    let mut peers: PeersContainer<u32> = PeersContainer::new();
    let mut connection = Connection::new(5u32);
    let request = embercore::protocol::Payload::AuthRequest(embercore::protocol::AuthRequest {
        login: "u".to_string(),
        password: "p".to_string(),
    });
    connection.on_message(Some(request), &mut peers);
    assert!(peers.has_peer(0));
    connection.release(&mut peers);
    assert!(!peers.has_peer(0));
    assert!(peers.empty());
}

#[test]
fn releasing_unadmitted_peer_changes_nothing() {
    let mut peers: PeersContainer<u32> = PeersContainer::new();
    enroll(&mut peers, 1);
    let mut peer = Peer::new();
    peer.release(&mut peers);
    assert!(peers.has_peer(0));
    assert_eq!(peers.poll_events(10), vec![ConnectionEvent::Connected(0)]);
}

#[test]
fn finished_walk_stays_finished() {
    let mut peers: PeersContainer<u32> = PeersContainer::new();
    enroll(&mut peers, 1);
    enroll(&mut peers, 2);
    let mut walk = peers.into_iter();
    assert_eq!(walk.next().map(|(id, h)| (id, *h)), Some((0, 1)));
    assert_eq!(walk.next().map(|(id, h)| (id, *h)), Some((1, 2)));
    assert!(walk.next().is_none());
    assert!(walk.next().is_none());
    assert!(walk.next().is_none());
}
