use tiled::{
    read_tokens, Attribute, Color, Gid, Orientation, ParseTileError, Properties, PropertyValue,
    TiledError,
    TiledMap, Tileset, Token,
};

const HEAD: &str = r#"<?xml version="1.0" encoding="UTF-8"?>"#;

fn parse(body: &str) -> Result<TiledMap, TiledError> {
    let doc = format!("{}{}", HEAD, body);
    TiledMap::parse_reader(doc.as_bytes(), None)
}

fn minimal(extra: &str, children: &str) -> String {
    format!(
        r#"<map version="1.4" orientation="orthogonal" width="30" height="20" tilewidth="16" tileheight="8"{}>{}</map>"#,
        extra, children
    )
}

fn attr(name: &str, value: &str) -> Attribute {
    Attribute { name: name.to_string(), value: value.to_string() }
}

fn start(name: &str, attrs: Vec<Attribute>) -> Token {
    Token::Start { name: name.to_string(), attrs }
}

fn end(name: &str) -> Token {
    Token::End { name: name.to_string() }
}

fn map_attrs() -> Vec<Attribute> {
    vec![
        attr("version", "1.0"),
        attr("orientation", "isometric"),
        attr("width", "3"),
        attr("height", "4"),
        attr("tilewidth", "5"),
        attr("tileheight", "6"),
    ]
}

fn tileset(first: u32, count: u32) -> Tileset {
    Tileset {
        first_gid: Gid(first),
        name: format!("set{}", first),
        tile_width: 16,
        tile_height: 16,
        spacing: 0,
        margin: 0,
        tile_count: count,
        columns: 0,
        image: None,
        properties: Properties::new(),
        source: None,
    }
}

#[test]
fn scalar_fields_are_the_attribute_values() {
    let map = parse(&minimal("", "")).unwrap();
    assert_eq!(map.version, "1.4");
    assert_eq!(map.orientation, Orientation::Orthogonal);
    assert_eq!(map.width, 30);
    assert_eq!(map.height, 20);
    assert_eq!(map.tile_width, 16);
    assert_eq!(map.tile_height, 8);
    assert_eq!(map.background_color, None);
    assert!(!map.infinite);
    assert_eq!(map.source, None);
    assert!(map.tilesets.is_empty());
    assert!(map.layers.is_empty());
    assert!(map.image_layers.is_empty());
    assert!(map.object_groups.is_empty());
    assert!(map.properties.entries().is_empty());
}

#[test]
fn each_orientation_is_read() {
    for (word, o) in [
        ("orthogonal", Orientation::Orthogonal),
        ("isometric", Orientation::Isometric),
        ("staggered", Orientation::Staggered),
        ("hexagonal", Orientation::Hexagonal),
    ] {
        assert_eq!(Orientation::from_str(word), Ok(o));
        assert_eq!(o.name(), word);
    }
    assert_eq!(Orientation::from_str("Orthogonal"), Err(ParseTileError::OrientationError));
    assert_eq!(Orientation::from_str(""), Err(ParseTileError::OrientationError));
}

#[test]
fn path_and_background_are_kept() {
    let doc = format!("{}{}", HEAD, minimal(r##" backgroundcolor="#ff8000""##, ""));
    let map = TiledMap::parse_reader(doc.as_bytes(), Some("maps/one.tmx")).unwrap();
    assert_eq!(map.source.as_deref(), Some("maps/one.tmx"));
    assert_eq!(map.background_color, Some(Color { red: 255, green: 128, blue: 0 }));
}

#[test]
fn infinite_flag() {
    assert!(parse(&minimal(r#" infinite="1""#, "")).unwrap().infinite);
    assert!(!parse(&minimal(r#" infinite="0""#, "")).unwrap().infinite);
    assert!(!parse(&minimal("", "")).unwrap().infinite);
    assert!(!parse(&minimal(r#" infinite="true""#, "")).unwrap().infinite);
}

#[test]
fn layer_indices_follow_the_document() {
    let children = r#"<layer name="a"/><objectgroup name="b"/><imagelayer name="c"/><layer name="d"/>"#;
    let map = parse(&minimal("", children)).unwrap();
    assert_eq!(map.layers.len(), 2);
    assert_eq!(map.layers[0].name, "a");
    assert_eq!(map.layers[0].layer_index, 0);
    assert_eq!(map.object_groups.len(), 1);
    assert_eq!(map.object_groups[0].layer_index, Some(1));
    assert_eq!(map.image_layers.len(), 1);
    assert_eq!(map.image_layers[0].layer_index, 2);
    assert_eq!(map.layers[1].name, "d");
    assert_eq!(map.layers[1].layer_index, 3);
}

#[test]
fn properties_and_tilesets_take_no_index() {
    let children = r#"<tileset firstgid="1" name="t" tilewidth="8" tileheight="8" tilecount="4"/><properties><property name="k" value="v"/></properties><layer name="a"/>"#;
    let map = parse(&minimal("", children)).unwrap();
    assert_eq!(map.layers[0].layer_index, 0);
    assert_eq!(map.tilesets.len(), 1);
    assert_eq!(map.properties.get("k"), Some(&PropertyValue::StringValue("v".to_string())));
}

#[test]
fn tileset_by_gid_finds_the_first_range() {
    let mut map = parse(&minimal("", "")).unwrap();
    map.tilesets.push(tileset(1, 10));
    map.tilesets.push(tileset(11, 5));
    assert_eq!(map.tileset_by_gid(Gid(5)).map(|t| t.first_gid), Some(Gid(1)));
    assert_eq!(map.tileset_by_gid(Gid(12)).map(|t| t.first_gid), Some(Gid(11)));
    assert_eq!(map.tileset_by_gid(Gid(20)), None);
    assert_eq!(map.tileset_by_gid(Gid(0)), None);
    assert_eq!(map.tileset_by_gid(Gid(10)).map(|t| t.first_gid), Some(Gid(1)));
    assert_eq!(map.tileset_by_gid(Gid(15)).map(|t| t.first_gid), Some(Gid(11)));
    assert_eq!(map.tileset_by_gid(Gid(16)), None);
}

#[test]
fn tileset_by_gid_prefers_the_earlier_of_two_overlapping() {
    let mut map = parse(&minimal("", "")).unwrap();
    map.tilesets.push(tileset(5, 10));
    map.tilesets.push(tileset(1, 10));
    assert_eq!(map.tileset_by_gid(Gid(7)).map(|t| t.first_gid), Some(Gid(5)));
    assert_eq!(map.tileset_by_gid(Gid(2)).map(|t| t.first_gid), Some(Gid(1)));
}

#[test]
fn tileset_range_near_the_largest_id() {
    let t = tileset(u32::MAX - 1, 5);
    assert!(t.contains_tile(Gid(u32::MAX)));
    assert!(t.contains_tile(Gid(u32::MAX - 1)));
    assert!(!t.contains_tile(Gid(u32::MAX - 2)));
    assert!(!tileset(3, 0).contains_tile(Gid(3)));
}

#[test]
fn tilesets_are_read_in_order() {
    let children = r#"<tileset firstgid="1" name="a" tilewidth="8" tileheight="9" tilecount="10" spacing="1" margin="2" columns="5"><image source="a.png" width="40" height="18" trans="ff00ff"/></tileset><tileset firstgid="11" source="b.tsx"/>"#;
    let map = parse(&minimal("", children)).unwrap();
    assert_eq!(map.tilesets.len(), 2);
    let a = &map.tilesets[0];
    assert_eq!((a.first_gid, a.tile_width, a.tile_height, a.tile_count), (Gid(1), 8, 9, 10));
    assert_eq!((a.spacing, a.margin, a.columns), (1, 2, 5));
    let image = a.image.as_ref().unwrap();
    assert_eq!(image.source, "a.png");
    assert_eq!((image.width, image.height), (40, 18));
    assert_eq!(image.transparent_colour, Some(Color { red: 255, green: 0, blue: 255 }));
    let b = &map.tilesets[1];
    assert_eq!(b.first_gid, Gid(11));
    assert_eq!(b.source.as_deref(), Some("b.tsx"));
    assert_eq!(b.tile_count, 0);
    assert_eq!(map.tileset_by_gid(Gid(10)).map(|t| t.name.as_str()), Some("a"));
    assert_eq!(map.tileset_by_gid(Gid(11)), None);
}

#[test]
fn tileset_without_a_first_id_is_malformed() {
    let r = parse(&minimal("", r#"<tileset name="a" tilewidth="8" tileheight="8"/>"#));
    assert!(matches!(r, Err(TiledError::MalformedAttributes(_))));
    let r = parse(&minimal("", r#"<tileset firstgid="1" name="a" tilewidth="8"/>"#));
    assert!(matches!(r, Err(TiledError::MalformedAttributes(_))));
}

#[test]
fn unknown_elements_do_not_change_the_layers() {
    let with = r#"<layer name="a"/><foo/><layer name="b"/>"#;
    let without = r#"<layer name="a"/><layer name="b"/>"#;
    let nested = r#"<layer name="a"><data encoding="csv">1,2</data></layer><foo><layer name="x"/><bar>text</bar></foo><layer name="b"/>"#;
    let a = parse(&minimal("", with)).unwrap();
    let b = parse(&minimal("", without)).unwrap();
    let c = parse(&minimal("", nested)).unwrap();
    assert_eq!(a, b);
    assert_eq!(c, b);
    assert_eq!(a.layers.len(), 2);
    assert_eq!(a.layers[1].layer_index, 1);
}

#[test]
fn document_without_a_map_ends_prematurely() {
    let r = parse("<other><child/></other>");
    assert_eq!(r, Err(TiledError::PrematureEnd("Document ended before map was parsed".to_string())));
}

#[test]
fn map_inside_another_element_is_found() {
    let r = parse(&format!("<wrapper>{}</wrapper>", minimal("", "")));
    assert_eq!(r.unwrap().width, 30);
}

#[test]
fn truncated_document_is_a_decoding_error() {
    let doc = format!("{}{}", HEAD, r#"<map version="1.4" orientation="orthogonal" width="30" height="20" tilewidth="16" tileheight="8"><layer name="a">"#);
    match TiledMap::parse_reader(doc.as_bytes(), None) {
        Err(TiledError::XmlDecodingError(e)) => assert!(!e.message.is_empty()),
        other => panic!("{:?}", other),
    }
    assert!(matches!(
        TiledMap::parse_reader(b"<map", None),
        Err(TiledError::XmlDecodingError(_))
    ));
    assert!(matches!(TiledMap::parse_reader(b"", None), Err(TiledError::XmlDecodingError(_))));
}

#[test]
fn map_without_required_attributes_is_malformed() {
    let expected = Err(TiledError::MalformedAttributes(
        "map must have a version, width and height with correct types".to_string(),
    ));
    assert_eq!(parse(r#"<map version="1.4" orientation="orthogonal" width="30" height="20" tilewidth="16"/>"#), expected);
    assert_eq!(parse(r#"<map version="1.4" orientation="slanted" width="30" height="20" tilewidth="16" tileheight="8"/>"#), expected);
    assert_eq!(parse(r#"<map version="1.4" orientation="orthogonal" width="-30" height="20" tilewidth="16" tileheight="8"/>"#), expected);
    assert_eq!(parse(r#"<map/>"#), expected);
}

#[test]
fn the_first_error_ends_the_parse() {
    let children = r#"<layer/><tileset name="broken"/>"#;
    assert_eq!(
        parse(&minimal("", children)),
        Err(TiledError::MalformedAttributes("layer must have a name".to_string()))
    );
}

#[test]
fn tokens_of_a_small_document() {
    let tokens = read_tokens(br#"<a x="1"><b>hi</b><!-- note --></a>"#);
    assert_eq!(
        tokens,
        vec![
            Token::Other,
            start("a", vec![attr("x", "1")]),
            start("b", vec![]),
            Token::Text("hi".to_string()),
            end("b"),
            end("a"),
            Token::EndDocument,
        ]
    );
}

#[test]
fn tokens_end_with_the_decoding_error() {
    let tokens = read_tokens(b"<a><b></a>");
    assert!(matches!(tokens.last(), Some(Token::Invalid(_))));
    assert_eq!(tokens.iter().filter(|t| t.is_last()).count(), 1);
    assert_eq!(tokens[1], start("a", vec![]));
}

#[test]
fn map_from_tokens_by_hand() {
    let tokens = vec![
        Token::Other,
        start("map", map_attrs()),
        Token::Text("\n".to_string()),
        start("layer", vec![attr("name", "ground")]),
        end("layer"),
        end("map"),
        Token::EndDocument,
    ];
    let map = TiledMap::parse_tokens(&tokens, Some("here")).unwrap();
    assert_eq!(map.version, "1.0");
    assert_eq!(map.orientation, Orientation::Isometric);
    assert_eq!((map.width, map.height, map.tile_width, map.tile_height), (3, 4, 5, 6));
    assert_eq!(map.layers.len(), 1);
    assert_eq!(map.layers[0].name, "ground");
    assert_eq!(map.source.as_deref(), Some("here"));
}

#[test]
fn tokens_that_stop_short_end_prematurely() {
    let tokens = vec![start("map", map_attrs()), start("layer", vec![attr("name", "a")])];
    assert_eq!(
        TiledMap::parse_tokens(&tokens, None),
        Err(TiledError::PrematureEnd("Element not closed: layer".to_string()))
    );
    let tokens = vec![start("map", map_attrs()), Token::EndDocument];
    assert_eq!(
        TiledMap::parse_tokens(&tokens, None),
        Err(TiledError::PrematureEnd("Element not closed: map".to_string()))
    );
    assert_eq!(
        TiledMap::parse_tokens(&vec![], None),
        Err(TiledError::PrematureEnd("Document ended before map was parsed".to_string()))
    );
}

#[test]
fn a_wrong_end_tag_ends_prematurely() {
    let tokens = vec![start("map", map_attrs()), end("layer"), end("map")];
    assert_eq!(
        TiledMap::parse_tokens(&tokens, None),
        Err(TiledError::PrematureEnd("Element not closed: map".to_string()))
    );
}

#[test]
fn a_decoding_error_among_the_tokens_comes_back_unchanged() {
    let e = tiled::DecodeError { row: 3, column: 7, message: "bad".to_string() };
    let tokens = vec![start("map", map_attrs()), start("foo", vec![]), Token::Invalid(e.clone())];
    assert_eq!(TiledMap::parse_tokens(&tokens, None), Err(TiledError::XmlDecodingError(e.clone())));
    let tokens = vec![Token::Other, Token::Invalid(e.clone())];
    let r = TiledMap::parse_tokens(&tokens, None);
    assert_eq!(r, Err(TiledError::XmlDecodingError(e)));
    assert_eq!(r.unwrap_err().message(), "bad");
}

#[test]
fn errors_carry_their_message() {
    assert_eq!(TiledError::malformed("a"), TiledError::MalformedAttributes("a".to_string()));
    assert_eq!(TiledError::premature("b"), TiledError::PrematureEnd("b".to_string()));
    assert_eq!(TiledError::other("c"), TiledError::Other("c".to_string()));
    assert_eq!(TiledError::malformed("a").message(), "a");
    assert_eq!(TiledError::premature("b").message(), "b");
    assert_eq!(TiledError::other("c").message(), "c");
    assert!(Token::EndDocument.is_last());
    assert!(!Token::Other.is_last());
    assert!(!end("map").is_last());
}

#[test]
fn layers_and_image_layers() {
    let children = r##"<layer name="ground" opacity="0.25" visible="0" offsetx="1.5" offsety="-2"><properties><property name="depth" type="float" value="0.5"/></properties><data encoding="csv">1,2,3</data></layer><imagelayer name="sky"><image source="sky.png" width="640" height="480"/></imagelayer><imagelayer><image source="x.png" width="1" height="1"/></imagelayer>"##;
    let r = parse(&minimal("", children));
    assert_eq!(r, Err(TiledError::MalformedAttributes("layer must have a name".to_string())));
    let children = children.replace("<imagelayer><image source=\"x.png\" width=\"1\" height=\"1\"/></imagelayer>", "");
    let map = parse(&minimal("", &children)).unwrap();
    let ground = &map.layers[0];
    assert_eq!(ground.name, "ground");
    assert_eq!(ground.opacity.as_str(), "0.25");
    assert!(!ground.visible);
    assert_eq!((ground.offset_x.as_str(), ground.offset_y.as_str()), ("1.5", "-2"));
    assert_eq!(
        ground.properties.get("depth"),
        Some(&PropertyValue::FloatValue(tiled::Decimal::parse("0.5").unwrap()))
    );
    let sky = &map.image_layers[0];
    assert_eq!(sky.name, "sky");
    assert_eq!(sky.opacity.as_str(), "1");
    assert!(sky.visible);
    assert_eq!(sky.layer_index, 1);
    let image = sky.image.as_ref().unwrap();
    assert_eq!((image.source.as_str(), image.width, image.height), ("sky.png", 640, 480));
    assert_eq!(image.transparent_colour, None);
}

#[test]
fn image_without_its_size_is_malformed() {
    let r = parse(&minimal("", r#"<imagelayer name="sky"><image source="sky.png"/></imagelayer>"#));
    assert_eq!(
        r,
        Err(TiledError::MalformedAttributes(
            "image must have a source, width and height with correct types".to_string()
        ))
    );
}
