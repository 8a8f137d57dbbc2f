//! The keyword enums of a map.
use vstd::prelude::*;

use crate::tme::error::Error;
use crate::tme::keyword::same_text;

verus! {

/// The kind of a map document.
#[derive(Clone, Copy, Debug, PartialEq, Eq, Structural)]
pub enum MapType {
    TileMap,
}

/// The keyword that stands for each map type.
pub open spec fn map_type_keyword(v: MapType) -> Seq<char> {
    match v {
        MapType::TileMap => "map"@,
    }
}

impl MapType {
    /// Reads the keyword of a map type; any other text is refused.
    pub fn from_str(s: &str) -> (r: core::result::Result<MapType, Error>)
        ensures
            match r {
                Ok(v) => s@ == map_type_keyword(v),
                Err(e) => {
                    &&& forall|v: MapType| s@ != #[trigger] map_type_keyword(v)
                    &&& (e matches Error::ParseMapType(t) && t@ == s@)
                },
            },
    {
        if same_text(s, "map") {
            Ok(MapType::TileMap)
        } else {
            proof {
                assert forall|v: MapType| s@ != #[trigger] map_type_keyword(v) by {
                    match v {
                        MapType::TileMap => {},
                    }
                }
            }
            Error::ParseMapType(s.to_owned()).fail()
        }
    }
}

/// The order in which the tiles of a map are drawn.
#[derive(Clone, Copy, Debug, PartialEq, Eq, Structural)]
pub enum RenderOrder {
    RightDown,
    RightUp,
    LeftDown,
    LeftUp,
}

/// The keyword that stands for each render order.
pub open spec fn render_order_keyword(v: RenderOrder) -> Seq<char> {
    match v {
        RenderOrder::RightDown => "right-down"@,
        RenderOrder::RightUp => "right-up"@,
        RenderOrder::LeftDown => "left-down"@,
        RenderOrder::LeftUp => "left-up"@,
    }
}

impl RenderOrder {
    /// Reads the keyword of a render order; any other text is refused.
    pub fn from_str(s: &str) -> (r: core::result::Result<RenderOrder, Error>)
        ensures
            match r {
                Ok(v) => s@ == render_order_keyword(v),
                Err(e) => {
                    &&& forall|v: RenderOrder| s@ != #[trigger] render_order_keyword(v)
                    &&& (e matches Error::ParseRenderOrder(t) && t@ == s@)
                },
            },
    {
        if same_text(s, "right-down") {
            Ok(RenderOrder::RightDown)
        } else if same_text(s, "right-up") {
            Ok(RenderOrder::RightUp)
        } else if same_text(s, "left-down") {
            Ok(RenderOrder::LeftDown)
        } else if same_text(s, "left-up") {
            Ok(RenderOrder::LeftUp)
        } else {
            proof {
                assert forall|v: RenderOrder| s@ != #[trigger] render_order_keyword(v) by {
                    match v {
                        RenderOrder::RightDown => {},
                        RenderOrder::RightUp => {},
                        RenderOrder::LeftDown => {},
                        RenderOrder::LeftUp => {},
                    }
                }
            }
            Error::ParseRenderOrder(s.to_owned()).fail()
        }
    }
}

/// The axis along which a staggered map is shifted.
#[derive(Clone, Copy, Debug, PartialEq, Eq, Structural)]
pub enum StaggerAxis {
    X,
    Y,
}

/// The keyword that stands for each stagger axis.
pub open spec fn stagger_axis_keyword(v: StaggerAxis) -> Seq<char> {
    match v {
        StaggerAxis::X => "x"@,
        StaggerAxis::Y => "y"@,
    }
}

impl StaggerAxis {
    /// Reads the keyword of a stagger axis; any other text is refused.
    pub fn from_str(s: &str) -> (r: core::result::Result<StaggerAxis, Error>)
        ensures
            match r {
                Ok(v) => s@ == stagger_axis_keyword(v),
                Err(e) => {
                    &&& forall|v: StaggerAxis| s@ != #[trigger] stagger_axis_keyword(v)
                    &&& (e matches Error::ParseStaggerAxis(t) && t@ == s@)
                },
            },
    {
        if same_text(s, "x") {
            Ok(StaggerAxis::X)
        } else if same_text(s, "y") {
            Ok(StaggerAxis::Y)
        } else {
            proof {
                assert forall|v: StaggerAxis| s@ != #[trigger] stagger_axis_keyword(v) by {
                    match v {
                        StaggerAxis::X => {},
                        StaggerAxis::Y => {},
                    }
                }
            }
            Error::ParseStaggerAxis(s.to_owned()).fail()
        }
    }
}

/// Which rows or columns of a staggered map are shifted.
#[derive(Clone, Copy, Debug, PartialEq, Eq, Structural)]
pub enum StaggerIndex {
    Odd,
    Even,
}

/// The keyword that stands for each stagger index.
pub open spec fn stagger_index_keyword(v: StaggerIndex) -> Seq<char> {
    match v {
        StaggerIndex::Odd => "odd"@,
        StaggerIndex::Even => "even"@,
    }
}

impl StaggerIndex {
    /// Reads the keyword of a stagger index; any other text is refused.
    pub fn from_str(s: &str) -> (r: core::result::Result<StaggerIndex, Error>)
        ensures
            match r {
                Ok(v) => s@ == stagger_index_keyword(v),
                Err(e) => {
                    &&& forall|v: StaggerIndex| s@ != #[trigger] stagger_index_keyword(v)
                    &&& (e matches Error::ParseStaggerIndex(t) && t@ == s@)
                },
            },
    {
        if same_text(s, "odd") {
            Ok(StaggerIndex::Odd)
        } else if same_text(s, "even") {
            Ok(StaggerIndex::Even)
        } else {
            proof {
                assert forall|v: StaggerIndex| s@ != #[trigger] stagger_index_keyword(v) by {
                    match v {
                        StaggerIndex::Odd => {},
                        StaggerIndex::Even => {},
                    }
                }
            }
            Error::ParseStaggerIndex(s.to_owned()).fail()
        }
    }
}

} // verus!
