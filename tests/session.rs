use embercore::peer::{Peer, StreamStatus, REQUESTS_PER_TICK};
use embercore::registry::PeersContainer;
use embercore::wire::{Codec, CodecError};

fn admitted_peer() -> Peer {
    let mut peers: PeersContainer<u32> = PeersContainer::new();
    let mut peer = Peer::new();
    assert!(peers.try_insert_peer(&mut peer, 0));
    let mut other = Peer::new();
    assert!(peers.try_insert_peer(&mut other, 1));
    other
}

#[test]
fn short_round_does_not_reschedule() {
    let mut peer = Peer::new();
    let bodies = vec![vec![1u8], vec![2, 3]];
    assert_eq!(peer.buffer_requests(&bodies), Ok(false));
    assert_eq!(peer.codec.output_bytes(), &[1, 1, 2, 2, 3]);
}

#[test]
fn full_round_reschedules() {
    let mut peer = Peer::new();
    let bodies: Vec<Vec<u8>> = (0..REQUESTS_PER_TICK as u8).map(|i| vec![i]).collect();
    assert_eq!(peer.buffer_requests(&bodies), Ok(true));
    assert_eq!(peer.codec.output_bytes().len(), 2 * REQUESTS_PER_TICK);
    assert_eq!(REQUESTS_PER_TICK, 10);
}

#[test]
fn received_frames_are_tagged_in_order() {
    let mut peer = admitted_peer();
    let mut sender = Codec::new();
    sender.buffer(&[10]).unwrap();
    sender.buffer(&[20, 21]).unwrap();
    peer.codec.fill(sender.output_bytes());
    peer.codec.fill(&[4, 1]);
    let (messages, status) = peer.receive();
    assert_eq!(messages, vec![(1, vec![10]), (1, vec![20, 21])]);
    assert_eq!(status, StreamStatus::Open);
    peer.codec.fill(&[2, 3, 4]);
    let (messages, status) = peer.receive();
    assert_eq!(messages, vec![(1, vec![1, 2, 3, 4])]);
    assert_eq!(status, StreamStatus::Open);
}

#[test]
fn closed_stream_ends_the_session() {
    let mut peer = admitted_peer();
    peer.codec.fill(&[1, 9]);
    peer.codec.close_input();
    let (messages, status) = peer.receive();
    assert_eq!(messages, vec![(1, vec![9])]);
    assert_eq!(status, StreamStatus::Ended);
}

#[test]
fn malformed_stream_fails_after_whole_frames() {
    let mut peer = admitted_peer();
    peer.codec.fill(&[1, 7]);
    peer.codec.fill(&[0xFF; 10]);
    let (messages, status) = peer.receive();
    assert_eq!(messages, vec![(1, vec![7])]);
    assert_eq!(status, StreamStatus::Failed(CodecError::MalformedLength));
}

#[test]
fn unadmitted_peer_has_no_session() {
    let mut peer = Peer::new();
    peer.codec.fill(&[1, 9]);
    let (messages, status) = peer.receive();
    assert!(messages.is_empty());
    assert_eq!(status, StreamStatus::Ended);
    assert_eq!(peer.codec.poll().unwrap(), embercore::wire::FramePoll::Frame { body: vec![9], more: false });
}
