//! The tile data of a layer or a chunk.
use vstd::prelude::*;

use crate::tme::error::Error;

verus! {

/// Tile data: the global tile IDs themselves, or their encoded text.
#[derive(Clone, Debug, PartialEq, Eq)]
pub enum DataSource {
    Raw(Vec<i64>),
    Encoded(String),
}

impl DataSource {
    /// Any text is encoded tile data.
    pub fn from_str(s: &str) -> (r: core::result::Result<DataSource, Error>)
        ensures
            r matches Ok(DataSource::Encoded(t)) && t@ == s@,
    {
        Ok(DataSource::Encoded(s.to_owned()))
    }
}

/// A rectangle of the tile data of an infinite map.
#[derive(Clone, Debug, PartialEq, Eq)]
pub struct Chunk {
    pub data: DataSource,
    pub height: i64,
    pub width: i64,
    pub x: i64,
    pub y: i64,
}

} // verus!
