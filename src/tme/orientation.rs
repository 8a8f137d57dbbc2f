//! The orientation of a map or a tileset grid.
use vstd::prelude::*;

use crate::tme::error::Error;
use crate::tme::keyword::same_text;

verus! {

/// How the tiles of a map are laid out.
#[derive(Clone, Copy, Debug, PartialEq, Eq, Structural)]
pub enum Orientation {
    Orthogonal,
    Isometric,
    Staggered,
    Hexagonal,
}

/// The keyword that stands for each orientation.
pub open spec fn orientation_keyword(v: Orientation) -> Seq<char> {
    match v {
        Orientation::Orthogonal => "orthogonal"@,
        Orientation::Isometric => "isometric"@,
        Orientation::Staggered => "staggered"@,
        Orientation::Hexagonal => "hexagonal"@,
    }
}

impl Orientation {
    /// Reads the keyword of a orientation; any other text is refused.
    pub fn from_str(s: &str) -> (r: core::result::Result<Orientation, Error>)
        ensures
            match r {
                Ok(v) => s@ == orientation_keyword(v),
                Err(e) => {
                    &&& forall|v: Orientation| s@ != #[trigger] orientation_keyword(v)
                    &&& (e matches Error::ParseOrientation(t) && t@ == s@)
                },
            },
    {
        if same_text(s, "orthogonal") {
            Ok(Orientation::Orthogonal)
        } else if same_text(s, "isometric") {
            Ok(Orientation::Isometric)
        } else if same_text(s, "staggered") {
            Ok(Orientation::Staggered)
        } else if same_text(s, "hexagonal") {
            Ok(Orientation::Hexagonal)
        } else {
            proof {
                assert forall|v: Orientation| s@ != #[trigger] orientation_keyword(v) by {
                    match v {
                        Orientation::Orthogonal => {},
                        Orientation::Isometric => {},
                        Orientation::Staggered => {},
                        Orientation::Hexagonal => {},
                    }
                }
            }
            Error::ParseOrientation(s.to_owned()).fail()
        }
    }
}

} // verus!
