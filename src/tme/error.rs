//! Why a value of the map format could not be read.
use vstd::prelude::*;

use std::num::ParseIntError;

verus! {

#[verifier::external_type_specification]
#[verifier::external_body]
pub struct ExParseIntError(ParseIntError);

/// Why a value of the map format could not be read; each variant holds the
/// text that was refused, or the cause.
#[derive(Debug)]
pub enum Error {
    ParseColor(String),
    ParseColorComponent(ParseIntError),
    ParseOrientation(String),
    ParseRenderOrder(String),
    ParseStaggerAxis(String),
    ParseStaggerIndex(String),
    ParseMapType(String),
    ParseCompression(String),
    ParseDrawOrder(String),
    ParseEncoding(String),
    ParseLayerType(String),
    ParseDataSource(String),
}

impl Error {
    /// This error as the failure of a result.
    pub fn fail<T>(self) -> (r: core::result::Result<T, Self>)
        ensures
            r == Err::<T, Self>(self),
    {
        Err(self)
    }
}

} // verus!
