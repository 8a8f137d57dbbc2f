//! The fixed-capacity table of admitted peers.
//!
//! Slot `i` holds the outbound handle of peer `i`; a 64-bit set records the
//! free slots. Admission always takes the lowest free slot, and every
//! admission and release is recorded, in order, as a `ConnectionEvent`.
use vstd::prelude::*;

use rust_dense_bitset::DenseBitSet;

use crate::bitset::{
    all_positions, bitset_all, bitset_first_set, bitset_get_bit, bitset_new, bitset_none,
    bitset_not, bitset_set_bit, set_bits,
};
use crate::peer::Peer;

verus! {

/// Number of slots, so the bound of every peer ID.
pub const CAPACITY: usize = 64;

/// What the simulation tick learns of admissions and releases. The registry
/// records them itself, under the same lock as the change they describe, so
/// that their order is the order of the admissions and releases.
#[derive(Clone, Copy, Debug, PartialEq, Eq, Structural)]
pub enum ConnectionEvent {
    Connected(u32),
    Disconnected(u32),
}

/// The registry of admitted peers, each with an outbound handle of type `T`.
pub struct PeersContainer<T> {
    peers: Vec<Option<T>>,
    slots: DenseBitSet,
    events: Vec<ConnectionEvent>,
}

impl<T> PeersContainer<T> {
    /// The handle held in each slot, `None` for a free slot.
    pub closed spec fn slots_view(&self) -> Seq<Option<T>> {
        self.peers@
    }

    /// The events recorded and not yet taken, oldest first.
    pub closed spec fn events(&self) -> Seq<ConnectionEvent> {
        self.events@
    }

    /// The table has its 64 slots, and a slot is free in the bit set exactly
    /// when it holds no handle.
    pub closed spec fn wf(&self) -> bool {
        &&& self.peers@.len() == CAPACITY
        &&& set_bits(self.slots).subset_of(all_positions())
        &&& forall|i: nat| i < CAPACITY ==> (set_bits(self.slots).contains(i) <==> self.peers@[i as int] is None)
    }

    /// A well-formed registry has its 64 slots.
    pub proof fn lemma_slots_len(&self)
        requires
            self.wf(),
        ensures
            self.slots_view().len() == CAPACITY,
    {
    }

    /// The IDs of the admitted peers.
    pub open spec fn occupied(&self) -> Set<nat> {
        Set::new(|i: nat| i < CAPACITY && self.slots_view()[i as int] is Some)
    }

    /// `id` is the lowest free slot.
    pub open spec fn is_lowest_free(&self, id: nat) -> bool {
        &&& id < CAPACITY
        &&& self.slots_view()[id as int] is None
        &&& forall|j: nat| j < id ==> self.slots_view()[j as int] is Some
    }

    /// Every slot is taken.
    pub open spec fn is_full(&self) -> bool {
        forall|i: nat| i < CAPACITY ==> self.slots_view()[i as int] is Some
    }

    /// What admitting a connection that held `peer_id` does: `admitted`
    /// tells whether it happened, `new_peer_id` is what the connection holds
    /// after it.
    pub open spec fn admission(
        self,
        peer_id: Option<u32>,
        handle: T,
        admitted: bool,
        after: Self,
        new_peer_id: Option<u32>,
    ) -> bool {
        &&& admitted == (!self.is_full() && peer_id is None)
        &&& admitted ==> {
            &&& new_peer_id is Some
            &&& self.is_lowest_free(new_peer_id->0 as nat)
            &&& after.slots_view() == self.slots_view().update(new_peer_id->0 as int, Some(handle))
            &&& after.events() == self.events().push(ConnectionEvent::Connected(new_peer_id->0))
        }
        &&& !admitted ==> {
            &&& new_peer_id == peer_id
            &&& after.slots_view() == self.slots_view()
            &&& after.events() == self.events()
        }
    }

    /// What releasing `id` does: `released` tells whether `id` was admitted.
    pub open spec fn release(self, id: u32, released: bool, after: Self) -> bool {
        &&& released == self.occupied().contains(id as nat)
        &&& released ==> {
            &&& after.slots_view() == self.slots_view().update(id as int, None)
            &&& after.events() == self.events().push(ConnectionEvent::Disconnected(id))
        }
        &&& !released ==> {
            &&& after.slots_view() == self.slots_view()
            &&& after.events() == self.events()
        }
    }

    /// An empty registry with no recorded event.
    pub fn new() -> (r: Self)
        ensures
            r.wf(),
            r.slots_view() == Seq::new(CAPACITY as nat, |i: int| None::<T>),
            r.events() == Seq::<ConnectionEvent>::empty(),
    {
        let slots = bitset_not(bitset_new());
        let mut peers: Vec<Option<T>> = Vec::new();
        let mut i: usize = 0;
        while i < CAPACITY
            invariant
                i <= CAPACITY,
                peers@.len() == i,
                forall|j: int| 0 <= j < i ==> peers@[j] is None,
            decreases CAPACITY - i,
        {
            peers.push(None);
            i = i + 1;
        }
        let r = PeersContainer { peers, slots, events: Vec::new() };
        assert(r.slots_view() =~= Seq::new(CAPACITY as nat, |i: int| None::<T>));
        assert(set_bits(r.slots).subset_of(all_positions()));
        r
    }

    /// Admits `peer` into the lowest free slot with its outbound handle,
    /// unless the table is full or `peer` is already admitted.
    pub fn try_insert_peer(&mut self, peer: &mut Peer, requests_queue: T) -> (r: bool)
        requires
            old(self).wf(),
        ensures
            final(self).wf(),
            old(self).admission(old(peer).id, requests_queue, r, *final(self), final(peer).id),
            final(peer).codec == old(peer).codec,
    {
        let first_empty = bitset_first_set(self.slots);
        proof {
            if first_empty as usize == CAPACITY {
                assert forall|i: nat| i < CAPACITY implies self.slots_view()[i as int] is Some by {
                    assert(!set_bits(self.slots).contains(i));
                }
            } else {
                assert(!self.is_full()) by {
                    assert(self.slots_view()[first_empty as int] is None);
                }
                assert forall|j: nat| j < first_empty implies self.slots_view()[j as int] is Some by {
                    assert(!set_bits(self.slots).contains(j));
                }
            }
        }
        if first_empty as usize == CAPACITY || peer.inserted() {
            return false;
        }
        peer.id = Some(first_empty);
        self.events.push(ConnectionEvent::Connected(first_empty));
        self.peers.set(first_empty as usize, Some(requests_queue));
        bitset_set_bit(&mut self.slots, first_empty as usize, false);
        proof {
            assert forall|i: nat| i < CAPACITY implies (set_bits(self.slots).contains(i)
                <==> self.peers@[i as int] is None) by {
                if i != first_empty as nat {
                    assert(set_bits(old(self).slots).contains(i) <==> old(self).peers@[i as int] is None);
                }
            }
        }
        true
    }

    /// Frees slot `id`; `false`, and nothing changes, where it was free.
    pub fn try_remove_peer(&mut self, id: u32) -> (r: bool)
        requires
            old(self).wf(),
        ensures
            final(self).wf(),
            old(self).release(id, r, *final(self)),
    {
        if !self.has_peer(id) {
            return false;
        }
        self.events.push(ConnectionEvent::Disconnected(id));
        self.peers.set(id as usize, None);
        bitset_set_bit(&mut self.slots, id as usize, true);
        proof {
            assert forall|i: nat| i < CAPACITY implies (set_bits(self.slots).contains(i)
                <==> self.peers@[i as int] is None) by {
                if i != id as nat {
                    assert(set_bits(old(self).slots).contains(i) <==> old(self).peers@[i as int] is None);
                }
            }
        }
        true
    }

    /// Whether `id` is admitted.
    pub fn has_peer(&self, id: u32) -> (r: bool)
        requires
            self.wf(),
        ensures
            r == self.occupied().contains(id as nat),
    {
        if id as usize >= CAPACITY {
            return false;
        }
        !bitset_get_bit(&self.slots, id as usize)
    }

    /// Whether no peer is admitted.
    pub fn empty(&self) -> (r: bool)
        requires
            self.wf(),
        ensures
            r == self.occupied().is_empty(),
    {
        let r = bitset_all(self.slots);
        proof {
            if r {
                assert forall|i: nat| !self.occupied().contains(i) by {
                    if i < CAPACITY {
                        assert(set_bits(self.slots).contains(i));
                    }
                }
                assert(self.occupied() =~= Set::<nat>::empty());
            } else {
                let i = choose|i: nat| i < CAPACITY && !set_bits(self.slots).contains(i);
                assert(self.occupied().contains(i));
            }
        }
        r
    }

    /// Whether every slot is taken.
    pub fn full(&self) -> (r: bool)
        requires
            self.wf(),
        ensures
            r == self.is_full(),
    {
        let r = bitset_none(self.slots);
        proof {
            if r {
                assert forall|i: nat| i < CAPACITY implies self.slots_view()[i as int] is Some by {
                    assert(!set_bits(self.slots).contains(i));
                }
            } else {
                let i = choose|i: nat| i < CAPACITY && set_bits(self.slots).contains(i);
                assert(self.slots_view()[i as int] is None);
            }
        }
        r
    }

    /// Hands out up to `max` of the recorded events, oldest first, and
    /// forgets them.
    pub fn poll_events(&mut self, max: usize) -> (r: Vec<ConnectionEvent>)
        requires
            old(self).wf(),
        ensures
            final(self).wf(),
            r@ == old(self).events().take(vstd::math::min(max as int, old(self).events().len() as int)),
            final(self).events() == old(self).events().skip(r@.len() as int),
            final(self).slots_view() == old(self).slots_view(),
    {
        let n = if max < self.events.len() {
            max
        } else {
            self.events.len()
        };
        let mut taken = self.events.split_off(n);
        std::mem::swap(&mut taken, &mut self.events);
        taken
    }

    /// Walks the admitted peers in ascending ID order.
    pub fn into_iter<'c>(&'c self) -> (r: PeersContainerIntoIterator<'c, T>)
        requires
            self.wf(),
        ensures
            r.container() == self,
            r.position() == 0,
    {
        PeersContainerIntoIterator { container: self, index: 0 }
    }
}

/// A walk over the admitted peers of a registry, lowest ID first.
pub struct PeersContainerIntoIterator<'c, T> {
    container: &'c PeersContainer<T>,
    index: u32,
}

impl<'c, T> PeersContainerIntoIterator<'c, T> {
    /// The registry walked over.
    pub closed spec fn container(&self) -> &'c PeersContainer<T> {
        self.container
    }

    /// The lowest ID not yet passed.
    pub closed spec fn position(&self) -> nat {
        self.index as nat
    }

    /// The next admitted peer at or after the current position, with its
    /// handle; `None` once every admitted peer has been handed out.
    pub fn next(&mut self) -> (r: Option<(u32, &'c T)>)
        requires
            old(self).container().wf(),
            old(self).position() <= CAPACITY,
        ensures
            final(self).container() == old(self).container(),
            final(self).position() <= CAPACITY,
            match r {
                Some((id, handle)) => {
                    &&& old(self).position() <= id < CAPACITY
                    &&& old(self).container().slots_view()[id as int] == Some(*handle)
                    &&& forall|j: nat| old(self).position() <= j < id
                        ==> !old(self).container().occupied().contains(j)
                    &&& final(self).position() == id + 1
                },
                None => {
                    &&& forall|j: nat| old(self).position() <= j
                        ==> !old(self).container().occupied().contains(j)
                    &&& final(self).position() == CAPACITY
                },
            },
    {
        while (self.index as usize) < CAPACITY && !self.container.has_peer(self.index)
            invariant
                self.container.wf(),
                self.container == old(self).container,
                old(self).index <= self.index <= CAPACITY,
                forall|j: nat| old(self).index <= j < self.index
                    ==> !self.container.occupied().contains(j),
            decreases CAPACITY - self.index,
        {
            self.index = self.index + 1;
        }
        if self.index as usize >= CAPACITY {
            self.index = CAPACITY as u32;
            return None;
        }
        let index = self.index;
        self.index = self.index + 1;
        let container: &'c PeersContainer<T> = self.container;
        match &container.peers[index as usize] {
            Some(handle) => Some((index, handle)),
            None => None,
        }
    }
}

/// A registry as `new` makes it: 64 free slots.
pub open spec fn is_fresh<T>(s: PeersContainer<T>) -> bool {
    s.slots_view() == Seq::new(CAPACITY as nat, |i: int| None::<T>)
}

/// `states` are the registries seen while connections that held no ID were
/// admitted one after another, starting from a fresh registry: `admitted[i]`
/// and `ids[i]` are what the `i`-th attempt returned and gave.
pub open spec fn admitted_in_sequence<T>(
    states: Seq<PeersContainer<T>>,
    handles: Seq<T>,
    admitted: Seq<bool>,
    ids: Seq<Option<u32>>,
) -> bool {
    &&& states.len() >= 1
    &&& handles.len() == admitted.len() == ids.len() == states.len() - 1
    &&& is_fresh(states[0])
    &&& forall|i: int|
        0 <= i < states.len() - 1 ==> #[trigger] states[i].admission(
            None,
            handles[i],
            admitted[i],
            states[i + 1],
            ids[i],
        )
}

/// Admitting connections one after another into a fresh registry gives
/// IDs 0, 1, 2, ... in turn while slots last, and fills the slots in that
/// order.
pub proof fn lemma_admissions_fill_in_order<T>(
    states: Seq<PeersContainer<T>>,
    handles: Seq<T>,
    admitted: Seq<bool>,
    ids: Seq<Option<u32>>,
)
    requires
        admitted_in_sequence(states, handles, admitted, ids),
        states.len() <= CAPACITY + 1,
    ensures
        forall|i: int| 0 <= i < states.len() - 1 ==> admitted[i] && ids[i] == Some(i as u32),
        forall|i: int|
            0 <= i < states.len() ==> (#[trigger] states[i]).slots_view().len() == CAPACITY
                && forall|j: int| 0 <= j < CAPACITY ==> (states[i].slots_view()[j] is Some <==> j < i),
    decreases states.len(),
{
    let n = states.len() - 1;
    if n > 0 {
        let prefix = states.take(n as int);
        assert forall|i: int| 0 <= i < prefix.len() - 1 implies #[trigger] prefix[i].admission(
            None,
            handles.take(n - 1)[i],
            admitted.take(n - 1)[i],
            prefix[i + 1],
            ids.take(n - 1)[i],
        ) by {
            assert(states[i].admission(None, handles[i], admitted[i], states[i + 1], ids[i]));
        }
        lemma_admissions_fill_in_order(prefix, handles.take(n - 1), admitted.take(n - 1), ids.take(n - 1));
        let last = states[n - 1];
        assert(prefix[n - 1] == last);
        assert(last.slots_view().len() == CAPACITY);
        assert forall|j: int| 0 <= j < CAPACITY implies (last.slots_view()[j] is Some <==> j < n - 1) by {
            assert(prefix[n - 1] == last);
        }
        let m = n - 1;
        assert(states[m].admission(None, handles[m], admitted[m], states[m + 1], ids[m]));
        assert(last.slots_view()[n - 1] is None);
        assert(!last.is_full());
        assert(last.is_lowest_free((n - 1) as nat));
        let id = ids[n - 1]->0;
        assert(id == n - 1) by {
            if id < n - 1 {
                assert(last.slots_view()[id as int] is Some);
            } else if id > n - 1 {
                assert(last.slots_view()[(n - 1) as int] is Some);
            }
        }
        assert forall|i: int| 0 <= i < states.len() - 1 implies admitted[i] && ids[i] == Some(i as u32) by {
            if i < n - 1 {
                assert(admitted.take(n - 1)[i] == admitted[i]);
                assert(ids.take(n - 1)[i] == ids[i]);
            }
        }
        assert forall|i: int| 0 <= i < states.len() implies (#[trigger] states[i]).slots_view().len() == CAPACITY
            && forall|j: int| 0 <= j < CAPACITY ==> (states[i].slots_view()[j] is Some <==> j < i) by {
            if i < n {
                assert(prefix[i] == states[i]);
            }
        }
    }
}

/// Capacity ceiling: of 65 admissions into a fresh registry, the first 64
/// succeed and the 65th is refused.
pub proof fn lemma_capacity_ceiling<T>(
    states: Seq<PeersContainer<T>>,
    handles: Seq<T>,
    admitted: Seq<bool>,
    ids: Seq<Option<u32>>,
)
    requires
        admitted_in_sequence(states, handles, admitted, ids),
        states.len() == CAPACITY + 2,
    ensures
        forall|i: int| 0 <= i < CAPACITY ==> admitted[i],
        !admitted[CAPACITY as int],
        ids[CAPACITY as int] is None,
        states[CAPACITY + 1].slots_view() == states[CAPACITY as int].slots_view(),
{
    let k = CAPACITY as int;
    let prefix = states.take(k + 1);
    assert forall|i: int| 0 <= i < prefix.len() - 1 implies #[trigger] prefix[i].admission(
        None,
        handles.take(k)[i],
        admitted.take(k)[i],
        prefix[i + 1],
        ids.take(k)[i],
    ) by {
        assert(states[i].admission(None, handles[i], admitted[i], states[i + 1], ids[i]));
    }
    lemma_admissions_fill_in_order(prefix, handles.take(k), admitted.take(k), ids.take(k));
    assert forall|i: int| 0 <= i < CAPACITY implies admitted[i] by {
        assert(admitted.take(k)[i] == admitted[i]);
    }
    let full = states[k];
    assert(prefix[k] == full);
    assert(full.is_full()) by {
        assert forall|i: nat| i < CAPACITY implies full.slots_view()[i as int] is Some by {
            assert(prefix[k] == full);
        }
    }
    assert(full.admission(None, handles[k], admitted[k], states[k + 1], ids[k]));
}

/// Slot reuse: after `n <= 64` admissions into a fresh registry and the
/// release of peer `k`, the next admission is granted and gives ID `k`.
pub proof fn lemma_slot_reuse<T>(
    states: Seq<PeersContainer<T>>,
    handles: Seq<T>,
    admitted: Seq<bool>,
    ids: Seq<Option<u32>>,
    k: u32,
    released: bool,
    after_release: PeersContainer<T>,
    handle: T,
    readmitted: bool,
    after: PeersContainer<T>,
    new_id: Option<u32>,
)
    requires
        admitted_in_sequence(states, handles, admitted, ids),
        states.len() <= CAPACITY + 1,
        k < states.len() - 1,
        states.last().release(k, released, after_release),
        after_release.admission(None, handle, readmitted, after, new_id),
    ensures
        released,
        readmitted,
        new_id == Some(k),
{
    lemma_admissions_fill_in_order(states, handles, admitted, ids);
    let n = states.len() - 1;
    let last = states.last();
    assert(last == states[n]);
    assert(last.slots_view()[k as int] is Some);
    assert(last.occupied().contains(k as nat));
    assert(after_release.slots_view()[k as int] is None);
    assert(!after_release.is_full());
    assert(after_release.is_lowest_free(k as nat)) by {
        assert forall|j: nat| j < k implies after_release.slots_view()[j as int] is Some by {
            assert(last.slots_view()[j as int] is Some);
        }
    }
    let id = new_id->0;
    assert(id == k) by {
        if id < k {
            assert(after_release.slots_view()[id as int] is Some);
        } else if id > k {
            assert(after_release.slots_view()[k as int] is Some);
        }
    }
}

/// ID exclusivity: an admission hands out an ID that no admitted peer holds,
/// and adds exactly that ID to the admitted ones.
pub proof fn lemma_admission_fresh_id<T>(
    s: PeersContainer<T>,
    peer_id: Option<u32>,
    handle: T,
    admitted: bool,
    after: PeersContainer<T>,
    new_peer_id: Option<u32>,
)
    requires
        s.slots_view().len() == CAPACITY,
        s.admission(peer_id, handle, admitted, after, new_peer_id),
        admitted,
    ensures
        !s.occupied().contains(new_peer_id->0 as nat),
        after.occupied() == s.occupied().insert(new_peer_id->0 as nat),
{
    assert(after.occupied() =~= s.occupied().insert(new_peer_id->0 as nat));
}

/// Event ordering: admitting A, then B, then releasing A records
/// `Connected(A)`, `Connected(B)`, `Disconnected(A)`, in that order.
pub proof fn lemma_event_order<T>(
    s0: PeersContainer<T>,
    ha: T,
    a: Option<u32>,
    s1: PeersContainer<T>,
    hb: T,
    b: Option<u32>,
    s2: PeersContainer<T>,
    released: bool,
    s3: PeersContainer<T>,
)
    requires
        s0.slots_view().len() == CAPACITY,
        s0.admission(None, ha, true, s1, a),
        s1.admission(None, hb, true, s2, b),
        s2.release(a->0, released, s3),
    ensures
        released,
        s3.events() == s0.events() + seq![
            ConnectionEvent::Connected(a->0),
            ConnectionEvent::Connected(b->0),
            ConnectionEvent::Disconnected(a->0),
        ],
{
    assert(s1.slots_view()[a->0 as int] is Some);
    assert(b->0 != a->0);
    assert(s2.slots_view()[a->0 as int] is Some);
    assert(s2.occupied().contains(a->0 as nat));
    assert(s3.events() =~= s0.events() + seq![
        ConnectionEvent::Connected(a->0),
        ConnectionEvent::Connected(b->0),
        ConnectionEvent::Disconnected(a->0),
    ]);
}

} // verus!
