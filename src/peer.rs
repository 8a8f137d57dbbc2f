//! The session of one connection once it is admitted.
//!
//! Each round of the session moves at most `REQUESTS_PER_TICK` outbound
//! messages into the codec, lets the caller write them out, then hands out
//! every whole inbound frame tagged with the peer's ID.
use vstd::prelude::*;

use crate::registry::PeersContainer;
use crate::wire::{frame_bytes, header_malformed, split_frame, varint, Codec, CodecError, FramePoll};

verus! {

/// Most outbound messages moved into the codec in one round.
pub const REQUESTS_PER_TICK: usize = 10;

/// The bytes of the frames that carry `bodies`, one after another.
pub open spec fn frames_bytes(bodies: Seq<Seq<u8>>) -> Seq<u8>
    decreases bodies.len(),
{
    if bodies.len() == 0 {
        Seq::empty()
    } else {
        frames_bytes(bodies.drop_last()) + frame_bytes(bodies.last())
    }
}

/// The byte sequences that `v` holds.
pub open spec fn views_of(v: Seq<Vec<u8>>) -> Seq<Seq<u8>> {
    v.map_values(|b: Vec<u8>| b@)
}

/// Buffering `bodies` after `start` stopped at body `j`, whose length
/// prefix found no room, leaving `out` with the frames before it.
pub open spec fn overflows_at(start: Seq<u8>, bodies: Seq<Seq<u8>>, j: int, out: Seq<u8>) -> bool {
    &&& 0 <= j < bodies.len()
    &&& out == start + frames_bytes(bodies.take(j))
    &&& varint(bodies[j].len()).len() > isize::MAX - out.len()
}

/// The bodies of the whole frames at the front of `b`, in order.
pub open spec fn buffered_frames(b: Seq<u8>) -> Seq<Seq<u8>>
    decreases b.len(),
{
    match split_frame(b) {
        Some((body, rest)) => if rest.len() < b.len() {
            seq![body] + buffered_frames(rest)
        } else {
            Seq::empty()
        },
        None => Seq::empty(),
    }
}

/// What is left of `b` once its whole frames are taken.
pub open spec fn after_frames(b: Seq<u8>) -> Seq<u8>
    decreases b.len(),
{
    match split_frame(b) {
        Some((body, rest)) => if rest.len() < b.len() {
            after_frames(rest)
        } else {
            b
        },
        None => b,
    }
}

proof fn lemma_split_shrinks(b: Seq<u8>)
    requires
        split_frame(b) is Some,
    ensures
        (split_frame(b)->0).1.len() < b.len(),
{
    crate::wire::lemma_header_len_positive(b);
}

/// What a session round of the admitted `before` hands out: every whole
/// inbound frame, in order and tagged with its ID, and how the stream
/// stands after them; only the inbound bytes change.
pub open spec fn receive_post(
    before: Peer,
    after: Peer,
    messages: Seq<(u32, Vec<u8>)>,
    status: StreamStatus,
) -> bool {
    &&& after.codec.wf()
    &&& after.id == before.id
    &&& after.codec.output() == before.codec.output()
    &&& after.codec.closed() == before.codec.closed()
    &&& after.codec.input() == after_frames(before.codec.input())
    &&& messages.map_values(|m: (u32, Vec<u8>)| m.1@) == buffered_frames(before.codec.input())
    &&& forall|i: int| 0 <= i < messages.len() ==> messages[i].0 == before.id->0
    &&& status == (if header_malformed(after.codec.input()) {
        StreamStatus::Failed(CodecError::MalformedLength)
    } else if before.codec.closed() {
        StreamStatus::Ended
    } else {
        StreamStatus::Open
    })
}

/// How the inbound stream stands after a round.
#[derive(Clone, Copy, Debug, PartialEq, Eq, Structural)]
pub enum StreamStatus {
    /// More frames may come.
    Open,
    /// The peer closed its side.
    Ended,
    /// The stream cannot go on.
    Failed(CodecError),
}

/// One connection as the registry sees it, with its codec.
pub struct Peer {
    /// The ID that the registry gave this connection, once admitted.
    pub id: Option<u32>,
    pub codec: Codec,
}

impl Peer {
    /// A connection that has not been admitted yet, with empty buffers.
    pub fn new() -> (r: Peer)
        ensures
            r.id is None,
            r.codec.wf(),
            r.codec.input() == Seq::<u8>::empty(),
            r.codec.output() == Seq::<u8>::empty(),
            !r.codec.closed(),
    {
        Peer { id: None, codec: Codec::new() }
    }

    /// Whether the registry has admitted this connection.
    pub fn inserted(&self) -> (r: bool)
        ensures
            r == self.id is Some,
    {
        self.id.is_some()
    }

    /// Gives the peer's ID back to the registry, as the end of the
    /// connection must, however it ends.
    pub fn release<T>(&mut self, peers: &mut PeersContainer<T>)
        requires
            old(peers).wf(),
        ensures
            final(peers).wf(),
            final(self).id is None,
            final(self).codec == old(self).codec,
            match old(self).id {
                Some(id) => {
                    &&& old(peers).release(id, old(peers).occupied().contains(id as nat), *final(peers))
                    &&& !final(peers).occupied().contains(id as nat)
                },
                None => *final(peers) == *old(peers),
            },
    {
        if let Some(id) = self.id {
            proof {
                peers.lemma_slots_len();
            }
            let released = peers.try_remove_peer(id);
            self.id = None;
            proof {
                if released {
                    assert(peers.slots_view()[id as int] is None);
                }
                assert(!peers.occupied().contains(id as nat));
            }
        }
    }

    /// Moves a round's outbound message bodies into the codec, in order.
    /// `Ok(true)` where the round used all of its budget, so that the
    /// caller runs the next round at once.
    pub fn buffer_requests(&mut self, bodies: &Vec<Vec<u8>>) -> (r: core::result::Result<bool, CodecError>)
        requires
            old(self).codec.wf(),
            bodies@.len() <= REQUESTS_PER_TICK,
        ensures
            final(self).codec.wf(),
            final(self).id == old(self).id,
            final(self).codec.input() == old(self).codec.input(),
            final(self).codec.closed() == old(self).codec.closed(),
            match r {
                Ok(more) => {
                    &&& more == (bodies@.len() == REQUESTS_PER_TICK)
                    &&& final(self).codec.output() == old(self).codec.output() + frames_bytes(
                        views_of(bodies@),
                    )
                },
                Err(e) => {
                    &&& e == CodecError::OutputOverflow
                    &&& exists|j: int| #[trigger]
                        overflows_at(
                            old(self).codec.output(),
                            views_of(bodies@),
                            j,
                            final(self).codec.output(),
                        )
                },
            },
    {
        let ghost start = self.codec.output();
        let mut i: usize = 0;
        while i < bodies.len()
            invariant
                i <= bodies@.len(),
                start == old(self).codec.output(),
                self.codec.wf(),
                self.id == old(self).id,
                self.codec.input() == old(self).codec.input(),
                self.codec.closed() == old(self).codec.closed(),
                self.codec.output() == start + frames_bytes(views_of(bodies@.take(i as int))),
            decreases bodies@.len() - i,
        {
            let ghost before = self.codec.output();
            match self.codec.buffer(bodies[i].as_slice()) {
                Ok(()) => {},
                Err(e) => {
                    proof {
                        let all = views_of(bodies@);
                        assert(all.take(i as int) =~= views_of(bodies@.take(i as int)));
                        assert(all[i as int] == bodies@[i as int]@);
                        assert(overflows_at(start, all, i as int, self.codec.output()));
                    }
                    return Err(e);
                },
            }
            proof {
                let done = views_of(bodies@.take(i + 1));
                assert(done.drop_last() =~= views_of(bodies@.take(i as int)));
                assert(done.last() == bodies@[i as int]@);
            }
            i = i + 1;
        }
        assert(bodies@.take(bodies@.len() as int) =~= bodies@);
        Ok(bodies.len() == REQUESTS_PER_TICK)
    }

    /// Hands out every whole inbound frame, tagged with the peer's ID, and
    /// tells how the stream stands after them. A peer that was never
    /// admitted has no session: it reads nothing, and its stream is over.
    pub fn receive(&mut self) -> (r: (Vec<(u32, Vec<u8>)>, StreamStatus))
        requires
            old(self).codec.wf(),
        ensures
            old(self).id is None ==> {
                &&& r.0@.len() == 0
                &&& r.1 == StreamStatus::Ended
                &&& *final(self) == *old(self)
            },
            old(self).id is Some ==> receive_post(*old(self), *final(self), r.0@, r.1),
    {
        let id = match self.id {
            Some(id) => id,
            None => {
                return (Vec::new(), StreamStatus::Ended);
            },
        };
        self.receive_frames(id)
    }

    fn receive_frames(&mut self, id: u32) -> (r: (Vec<(u32, Vec<u8>)>, StreamStatus))
        requires
            old(self).codec.wf(),
            old(self).id == Some(id),
        ensures
            receive_post(*old(self), *final(self), r.0@, r.1),
    {
        let mut messages: Vec<(u32, Vec<u8>)> = Vec::new();
        loop
            invariant
                self.codec.wf(),
                self.id == old(self).id,
                id == old(self).id->0,
                self.codec.output() == old(self).codec.output(),
                self.codec.closed() == old(self).codec.closed(),
                after_frames(self.codec.input()) == after_frames(old(self).codec.input()),
                messages@.map_values(|m: (u32, Vec<u8>)| m.1@) + buffered_frames(self.codec.input())
                    == buffered_frames(old(self).codec.input()),
                forall|i: int| 0 <= i < messages@.len() ==> messages@[i].0 == id,
            decreases self.codec.input().len(),
        {
            let ghost before = self.codec.input();
            match self.codec.poll() {
                Ok(FramePoll::Frame { body, more: _ }) => {
                    proof {
                        lemma_split_shrinks(before);
                        assert(buffered_frames(before) == seq![body@] + buffered_frames(
                            self.codec.input(),
                        ));
                    }
                    let ghost old_messages = messages@;
                    messages.push((id, body));
                    proof {
                        assert(messages@.map_values(|m: (u32, Vec<u8>)| m.1@) =~= old_messages.map_values(
                            |m: (u32, Vec<u8>)| m.1@,
                        ).push(body@));
                        assert(messages@.map_values(|m: (u32, Vec<u8>)| m.1@) + buffered_frames(
                            self.codec.input(),
                        ) =~= old_messages.map_values(|m: (u32, Vec<u8>)| m.1@) + buffered_frames(
                            before,
                        ));
                    }
                },
                Ok(FramePoll::Pending) => {
                    assert(messages@.map_values(|m: (u32, Vec<u8>)| m.1@) + Seq::<Seq<u8>>::empty()
                        =~= messages@.map_values(|m: (u32, Vec<u8>)| m.1@));
                    return (messages, StreamStatus::Open);
                },
                Ok(FramePoll::End) => {
                    assert(messages@.map_values(|m: (u32, Vec<u8>)| m.1@) + Seq::<Seq<u8>>::empty()
                        =~= messages@.map_values(|m: (u32, Vec<u8>)| m.1@));
                    return (messages, StreamStatus::Ended);
                },
                Err(e) => {
                    proof {
                        crate::wire::lemma_malformed_has_no_frame(before);
                    }
                    assert(messages@.map_values(|m: (u32, Vec<u8>)| m.1@) + Seq::<Seq<u8>>::empty()
                        =~= messages@.map_values(|m: (u32, Vec<u8>)| m.1@));
                    return (messages, StreamStatus::Failed(e));
                },
            }
        }
    }
}

} // verus!
