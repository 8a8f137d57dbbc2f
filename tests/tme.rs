use embercore::tme::color::{default_alpha, Color};
use embercore::tme::data_source::DataSource;
use embercore::tme::error::Error;
use embercore::tme::layer::{Compression, DrawOrder, Encoding, LayerType};
use embercore::tme::map::{MapType, RenderOrder, StaggerAxis, StaggerIndex};
use embercore::tme::orientation::Orientation;

#[test]
fn deserialize_color_from_str() {
    let expected_colors = vec![
        Color::new(100, 100, 100),
        Color::new(255, 255, 255),
        Color::new(0, 0, 0),
        Color::new(5, 5, 5),
        Color::with_alpha(255, 100, 100, 100),
        Color::with_alpha(100, 255, 255, 255),
        Color::with_alpha(50, 0, 0, 0),
        Color::with_alpha(0, 5, 5, 5),
    ];
    let texts = [
        "#646464", "#FFFFFF", "#000000", "#050505", "#FF646464", "#64FFFFFF", "#32000000",
        "#00050505",
    ];
    for (text, expected) in texts.iter().zip(expected_colors) {
        assert_eq!(Color::from_str(text).unwrap(), expected);
    }
}

#[test]
fn serialize_color_to_str() {
    let colors = vec![
        Color::new(100, 100, 100),
        Color::new(255, 255, 255),
        Color::new(0, 0, 0),
        Color::new(5, 5, 5),
        Color::with_alpha(255, 100, 100, 100),
        Color::with_alpha(100, 255, 255, 255),
        Color::with_alpha(50, 0, 0, 0),
        Color::with_alpha(0, 5, 5, 5),
    ];
    let expected = [
        "#FF646464", "#FFFFFFFF", "#FF000000", "#FF050505", "#FF646464", "#64FFFFFF", "#32000000",
        "#00050505",
    ];
    for (color, text) in colors.iter().zip(expected.iter()) {
        assert_eq!(color.to_string(), *text);
    }
}

#[test]
fn color_reads_without_hash_and_in_lower_case() {
    assert_eq!(Color::from_str("ff00ffaa").unwrap(), Color::with_alpha(255, 0, 255, 170));
    assert_eq!(Color::from_str("00FFAA").unwrap(), Color::new(0, 255, 170));
    assert_eq!(Color::with_alpha(0xAB, 0xCD, 0xEF, 0x01).to_string(), "#ABCDEF01");
}

#[test]
fn color_component_may_carry_plus_sign() {
    assert_eq!(Color::from_str("#+F0000").unwrap(), Color::new(15, 0, 0));
}

#[test]
fn color_of_wrong_length_is_refused() {
    match Color::from_str("#12345") {
        Err(Error::ParseColor(t)) => assert_eq!(t, "12345"),
        other => panic!("unexpected {:?}", other),
    }
    match Color::from_str("") {
        Err(Error::ParseColor(t)) => assert_eq!(t, ""),
        other => panic!("unexpected {:?}", other),
    }
}

#[test]
fn color_with_bad_digit_is_refused() {
    assert!(matches!(Color::from_str("#GG0000"), Err(Error::ParseColorComponent(_))));
    assert!(matches!(Color::from_str("#00000-00"), Err(Error::ParseColorComponent(_))));
}

#[test]
fn opaque_alpha_is_full() {
    assert_eq!(default_alpha(), 255);
    assert_eq!(Color::new(1, 2, 3).a, 255);
}

#[test]
fn deserialize_orientation() {
    let texts = ["orthogonal", "isometric", "staggered", "hexagonal"];
    let expecteds = vec![
        Orientation::Orthogonal,
        Orientation::Isometric,
        Orientation::Staggered,
        Orientation::Hexagonal,
    ];
    for (text, expected) in texts.iter().zip(expecteds) {
        assert_eq!(Orientation::from_str(text).unwrap(), expected);
    }
    assert!(matches!(Orientation::from_str("Orthogonal"), Err(Error::ParseOrientation(t)) if t == "Orthogonal"));
}

#[test]
fn layer_keywords_are_read() {
    assert_eq!(Compression::from_str("zlib").unwrap(), Compression::Zlib);
    assert_eq!(Compression::from_str("gzip").unwrap(), Compression::Gzip);
    assert!(matches!(Compression::from_str("zip"), Err(Error::ParseCompression(t)) if t == "zip"));
    assert_eq!(DrawOrder::from_str("topdown").unwrap(), DrawOrder::TopDown);
    assert_eq!(DrawOrder::from_str("index").unwrap(), DrawOrder::Index);
    assert!(matches!(DrawOrder::from_str(""), Err(Error::ParseDrawOrder(_))));
    assert_eq!(Encoding::from_str("csv").unwrap(), Encoding::Csv);
    assert_eq!(Encoding::from_str("base64").unwrap(), Encoding::Base64);
    assert!(matches!(Encoding::from_str("hex"), Err(Error::ParseDrawOrder(t)) if t == "hex"));
    assert_eq!(LayerType::from_str("tilelayer").unwrap(), LayerType::TileLayer);
    assert_eq!(LayerType::from_str("objectgroup").unwrap(), LayerType::ObjectGroup);
    assert_eq!(LayerType::from_str("imagelayer").unwrap(), LayerType::ImageLayer);
    assert_eq!(LayerType::from_str("group").unwrap(), LayerType::Group);
    assert!(matches!(LayerType::from_str("groups"), Err(Error::ParseLayerType(_))));
}

#[test]
fn map_keywords_are_read() {
    assert_eq!(MapType::from_str("map").unwrap(), MapType::TileMap);
    assert!(matches!(MapType::from_str("tileset"), Err(Error::ParseMapType(t)) if t == "tileset"));
    assert_eq!(RenderOrder::from_str("right-down").unwrap(), RenderOrder::RightDown);
    assert_eq!(RenderOrder::from_str("right-up").unwrap(), RenderOrder::RightUp);
    assert_eq!(RenderOrder::from_str("left-down").unwrap(), RenderOrder::LeftDown);
    assert_eq!(RenderOrder::from_str("left-up").unwrap(), RenderOrder::LeftUp);
    assert!(matches!(RenderOrder::from_str("right_down"), Err(Error::ParseRenderOrder(_))));
    assert_eq!(StaggerAxis::from_str("x").unwrap(), StaggerAxis::X);
    assert_eq!(StaggerAxis::from_str("y").unwrap(), StaggerAxis::Y);
    assert!(matches!(StaggerAxis::from_str("z"), Err(Error::ParseStaggerAxis(_))));
    assert_eq!(StaggerIndex::from_str("odd").unwrap(), StaggerIndex::Odd);
    assert_eq!(StaggerIndex::from_str("even").unwrap(), StaggerIndex::Even);
    assert!(matches!(StaggerIndex::from_str("evens"), Err(Error::ParseStaggerIndex(_))));
}

#[test]
fn any_text_is_encoded_data() {
    assert_eq!(
        DataSource::from_str("qweasdzxcQWEASDZXC").unwrap(),
        DataSource::Encoded("qweasdzxcQWEASDZXC".to_string())
    );
}

#[test]
fn error_fails_a_result() {
    let r: Result<u8, Error> = Error::ParseMapType("m".to_string()).fail();
    assert!(matches!(r, Err(Error::ParseMapType(t)) if t == "m"));
}
