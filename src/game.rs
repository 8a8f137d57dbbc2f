//! What the world keeps of a peer.
use vstd::prelude::*;

verus! {

/// The entity of an admitted peer, keyed by its peer ID.
#[derive(Clone, Copy, Debug, PartialEq, Eq, Structural)]
pub struct Player {
    pub id: u32,
}

} // verus!
