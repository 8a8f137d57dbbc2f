//! The keyword enums of a map layer.
use vstd::prelude::*;

use crate::tme::error::Error;
use crate::tme::keyword::same_text;

verus! {

/// How the data of a tile layer is compressed.
#[derive(Clone, Copy, Debug, PartialEq, Eq, Structural)]
pub enum Compression {
    Zlib,
    Gzip,
}

/// The keyword that stands for each compression.
pub open spec fn compression_keyword(v: Compression) -> Seq<char> {
    match v {
        Compression::Zlib => "zlib"@,
        Compression::Gzip => "gzip"@,
    }
}

impl Compression {
    /// Reads the keyword of a compression; any other text is refused.
    pub fn from_str(s: &str) -> (r: core::result::Result<Compression, Error>)
        ensures
            match r {
                Ok(v) => s@ == compression_keyword(v),
                Err(e) => {
                    &&& forall|v: Compression| s@ != #[trigger] compression_keyword(v)
                    &&& (e matches Error::ParseCompression(t) && t@ == s@)
                },
            },
    {
        if same_text(s, "zlib") {
            Ok(Compression::Zlib)
        } else if same_text(s, "gzip") {
            Ok(Compression::Gzip)
        } else {
            proof {
                assert forall|v: Compression| s@ != #[trigger] compression_keyword(v) by {
                    match v {
                        Compression::Zlib => {},
                        Compression::Gzip => {},
                    }
                }
            }
            Error::ParseCompression(s.to_owned()).fail()
        }
    }
}

/// The order in which the objects of a layer are drawn.
#[derive(Clone, Copy, Debug, PartialEq, Eq, Structural)]
pub enum DrawOrder {
    TopDown,
    Index,
}

/// The keyword that stands for each draw order.
pub open spec fn draw_order_keyword(v: DrawOrder) -> Seq<char> {
    match v {
        DrawOrder::TopDown => "topdown"@,
        DrawOrder::Index => "index"@,
    }
}

impl DrawOrder {
    /// Reads the keyword of a draw order; any other text is refused.
    pub fn from_str(s: &str) -> (r: core::result::Result<DrawOrder, Error>)
        ensures
            match r {
                Ok(v) => s@ == draw_order_keyword(v),
                Err(e) => {
                    &&& forall|v: DrawOrder| s@ != #[trigger] draw_order_keyword(v)
                    &&& (e matches Error::ParseDrawOrder(t) && t@ == s@)
                },
            },
    {
        if same_text(s, "topdown") {
            Ok(DrawOrder::TopDown)
        } else if same_text(s, "index") {
            Ok(DrawOrder::Index)
        } else {
            proof {
                assert forall|v: DrawOrder| s@ != #[trigger] draw_order_keyword(v) by {
                    match v {
                        DrawOrder::TopDown => {},
                        DrawOrder::Index => {},
                    }
                }
            }
            Error::ParseDrawOrder(s.to_owned()).fail()
        }
    }
}

/// How the data of a tile layer is written.
#[derive(Clone, Copy, Debug, PartialEq, Eq, Structural)]
pub enum Encoding {
    Csv,
    Base64,
}

/// The keyword that stands for each encoding.
pub open spec fn encoding_keyword(v: Encoding) -> Seq<char> {
    match v {
        Encoding::Csv => "csv"@,
        Encoding::Base64 => "base64"@,
    }
}

impl Encoding {
    /// Reads the keyword of a encoding; any other text is refused.
    pub fn from_str(s: &str) -> (r: core::result::Result<Encoding, Error>)
        ensures
            match r {
                Ok(v) => s@ == encoding_keyword(v),
                Err(e) => {
                    &&& forall|v: Encoding| s@ != #[trigger] encoding_keyword(v)
                    &&& (e matches Error::ParseDrawOrder(t) && t@ == s@)
                },
            },
    {
        if same_text(s, "csv") {
            Ok(Encoding::Csv)
        } else if same_text(s, "base64") {
            Ok(Encoding::Base64)
        } else {
            proof {
                assert forall|v: Encoding| s@ != #[trigger] encoding_keyword(v) by {
                    match v {
                        Encoding::Csv => {},
                        Encoding::Base64 => {},
                    }
                }
            }
            Error::ParseDrawOrder(s.to_owned()).fail()
        }
    }
}

/// The kind of a layer.
#[derive(Clone, Copy, Debug, PartialEq, Eq, Structural)]
pub enum LayerType {
    TileLayer,
    ObjectGroup,
    ImageLayer,
    Group,
}

/// The keyword that stands for each layer type.
pub open spec fn layer_type_keyword(v: LayerType) -> Seq<char> {
    match v {
        LayerType::TileLayer => "tilelayer"@,
        LayerType::ObjectGroup => "objectgroup"@,
        LayerType::ImageLayer => "imagelayer"@,
        LayerType::Group => "group"@,
    }
}

impl LayerType {
    /// Reads the keyword of a layer type; any other text is refused.
    pub fn from_str(s: &str) -> (r: core::result::Result<LayerType, Error>)
        ensures
            match r {
                Ok(v) => s@ == layer_type_keyword(v),
                Err(e) => {
                    &&& forall|v: LayerType| s@ != #[trigger] layer_type_keyword(v)
                    &&& (e matches Error::ParseLayerType(t) && t@ == s@)
                },
            },
    {
        if same_text(s, "tilelayer") {
            Ok(LayerType::TileLayer)
        } else if same_text(s, "objectgroup") {
            Ok(LayerType::ObjectGroup)
        } else if same_text(s, "imagelayer") {
            Ok(LayerType::ImageLayer)
        } else if same_text(s, "group") {
            Ok(LayerType::Group)
        } else {
            proof {
                assert forall|v: LayerType| s@ != #[trigger] layer_type_keyword(v) by {
                    match v {
                        LayerType::TileLayer => {},
                        LayerType::ObjectGroup => {},
                        LayerType::ImageLayer => {},
                        LayerType::Group => {},
                    }
                }
            }
            Error::ParseLayerType(s.to_owned()).fail()
        }
    }
}

} // verus!
