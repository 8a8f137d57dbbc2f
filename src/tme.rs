//! The values of the tile-map description format that carry rules of their
//! own: colours written as hex strings, and the keywords of its enums.
pub mod color;
pub mod error;
pub mod keyword;
pub mod orientation;
pub mod layer;
pub mod map;
pub mod data_source;
pub mod grid;
