//! How the tiles of a tileset are laid out and placed.
use vstd::prelude::*;

use crate::tme::orientation::Orientation;

verus! {

/// The grid of a tileset whose tiles are images of their own.
#[derive(Clone, Copy, Debug, PartialEq, Eq, Structural)]
pub struct Grid {
    pub height: i64,
    pub orientation: Orientation,
    pub width: i64,
}

/// The offset, in pixels, at which the tiles of a tileset are drawn.
#[derive(Clone, Copy, Debug, PartialEq, Eq, Structural)]
pub struct TileOffset {
    pub x: i64,
    pub y: i64,
}

} // verus!
