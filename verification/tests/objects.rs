use tiled::{
    Attribute, Color, Decimal, Gid, HorizontalAlignment, Object, ObjectGroup, ObjectShape,
    Properties, PropertyValue, TiledError, TiledMap, Token, VerticalAlignment,
};

fn group_of(children: &str) -> Result<ObjectGroup, TiledError> {
    let doc = format!(
        r#"<map version="1.4" orientation="orthogonal" width="1" height="1" tilewidth="1" tileheight="1"><objectgroup name="things">{}</objectgroup></map>"#,
        children
    );
    TiledMap::parse_reader(doc.as_bytes(), None).map(|mut m| m.object_groups.remove(0))
}

fn object_of(attrs: &str, children: &str) -> Result<Object, TiledError> {
    group_of(&format!("<object {}>{}</object>", attrs, children)).map(|mut g| g.objects.remove(0))
}

fn shape_of(children: &str) -> Result<ObjectShape, TiledError> {
    object_of(r#"x="1.5" y="2" width="30" height="40""#, children).map(|o| o.shape)
}

fn number(d: &Decimal) -> f32 {
    d.as_str().parse().unwrap()
}

fn numbers(points: &[(Decimal, Decimal)]) -> Vec<(f32, f32)> {
    points.iter().map(|(x, y)| (number(x), number(y))).collect()
}

fn malformed(message: &str) -> TiledError {
    TiledError::MalformedAttributes(message.to_string())
}

#[test]
fn polyline_points() {
    match shape_of(r#"<polyline points="0,0 10,0 10,10"/>"#).unwrap() {
        ObjectShape::Polyline { points } => {
            assert_eq!(numbers(&points), vec![(0.0, 0.0), (10.0, 0.0), (10.0, 10.0)]);
        },
        other => panic!("{:?}", other),
    }
}

#[test]
fn polygon_points() {
    match shape_of(r#"<polygon points="-1.5,2e1 .5,-0"></polygon>"#).unwrap() {
        ObjectShape::Polygon { points } => {
            assert_eq!(numbers(&points), vec![(-1.5, 20.0), (0.5, 0.0)]);
            assert_eq!(points[0].0.as_str(), "-1.5");
        },
        other => panic!("{:?}", other),
    }
}

#[test]
fn point_without_a_pair_is_malformed() {
    let pair = malformed("one of a polyline's points does not have an x and y coordinate");
    let numeric = malformed("one of a polyline's points does not have numeric coordinates");
    assert_eq!(shape_of(r#"<polyline points="0,0 10 10,10"/>"#), Err(pair.clone()));
    assert_eq!(shape_of(r#"<polyline points="0,0,0"/>"#), Err(pair.clone()));
    assert_eq!(shape_of(r#"<polyline points=""/>"#), Err(pair.clone()));
    assert_eq!(shape_of(r#"<polygon points="0,0 "/>"#), Err(pair.clone()));
    assert_eq!(shape_of(r#"<polygon points="0,0  1,1"/>"#), Err(pair.clone()));
    assert_eq!(shape_of(r#"<polyline points="0,a"/>"#), Err(numeric.clone()));
    assert_eq!(shape_of(r#"<polyline points=","/>"#), Err(numeric.clone()));
    assert_eq!(shape_of(r#"<polyline points="1,2 x,y 3"/>"#), Err(numeric));
    assert_eq!(shape_of(r#"<polyline points="1,2 3 x,y"/>"#), Err(pair));
}

#[test]
fn outline_without_points_is_malformed() {
    assert_eq!(shape_of("<polyline/>"), Err(malformed("A polyline must have points")));
    assert_eq!(shape_of("<polygon/>"), Err(malformed("A polygon must have points")));
}

#[test]
fn text_defaults() {
    match shape_of("<text>Hello</text>").unwrap() {
        ObjectShape::Text {
            font_family,
            pixel_size,
            wrap,
            color,
            bold,
            italic,
            underline,
            strikeout,
            kerning,
            halign,
            valign,
            contents,
        } => {
            assert_eq!(font_family, "sans-serif");
            assert_eq!(pixel_size, 16);
            assert!(!wrap && !bold && !italic && !underline && !strikeout);
            assert_eq!(color, Color { red: 0, green: 0, blue: 0 });
            assert!(kerning);
            assert_eq!(halign, HorizontalAlignment::Left);
            assert_eq!(valign, VerticalAlignment::Top);
            assert_eq!(contents, "Hello");
        },
        other => panic!("{:?}", other),
    }
}

#[test]
fn text_attributes() {
    let text = r##"<text fontfamily="serif" pixelsize="24" wrap="1" color="#102030" bold="1" italic="0" underline="1" strikeout="2" kerning="0" halign="justify" valign="bottom">a &amp; b</text>"##;
    match shape_of(text).unwrap() {
        ObjectShape::Text {
            font_family,
            pixel_size,
            wrap,
            color,
            bold,
            italic,
            underline,
            strikeout,
            kerning,
            halign,
            valign,
            contents,
        } => {
            assert_eq!(font_family, "serif");
            assert_eq!(pixel_size, 24);
            assert!(wrap && bold && underline);
            assert!(!italic && !strikeout);
            assert_eq!(color, Color { red: 16, green: 32, blue: 48 });
            assert!(!kerning);
            assert_eq!(halign, HorizontalAlignment::Justify);
            assert_eq!(valign, VerticalAlignment::Bottom);
            assert_eq!(contents, "a & b");
        },
        other => panic!("{:?}", other),
    }
}

#[test]
fn kerning_is_on_unless_it_is_nought() {
    let kerning = |attrs: &str| match shape_of(&format!("<text {}>x</text>", attrs)).unwrap() {
        ObjectShape::Text { kerning, .. } => kerning,
        other => panic!("{:?}", other),
    };
    assert!(kerning(""));
    assert!(!kerning(r#"kerning="0""#));
    assert!(kerning(r#"kerning="1""#));
    assert!(kerning(r#"kerning="no""#));
}

#[test]
fn alignments() {
    let aligned = |attrs: &str| match shape_of(&format!("<text {}>x</text>", attrs)) {
        Ok(ObjectShape::Text { halign, valign, .. }) => Ok((halign, valign)),
        Ok(other) => panic!("{:?}", other),
        Err(e) => Err(e),
    };
    assert_eq!(
        aligned(r#"halign="center" valign="center""#),
        Ok((HorizontalAlignment::Center, VerticalAlignment::Center))
    );
    assert_eq!(
        aligned(r#"halign="right" valign="top""#),
        Ok((HorizontalAlignment::Right, VerticalAlignment::Top))
    );
    assert_eq!(aligned(r#"halign="left""#), Ok((HorizontalAlignment::Left, VerticalAlignment::Top)));
    let unknown = Err(malformed("text has an unknown halign or valign"));
    assert_eq!(aligned(r#"halign="middle""#), unknown);
    assert_eq!(aligned(r#"valign="justify""#), unknown);
    assert_eq!(HorizontalAlignment::parse(None), Some(HorizontalAlignment::Left));
    assert_eq!(VerticalAlignment::parse(Some(&"Top".to_string())), None);
}

#[test]
fn empty_text_has_no_contents() {
    match shape_of("<text/>").unwrap() {
        ObjectShape::Text { contents, .. } => assert_eq!(contents, ""),
        other => panic!("{:?}", other),
    }
}

#[test]
fn rect_ellipse_and_point() {
    match shape_of("").unwrap() {
        ObjectShape::Rect { width, height } => {
            assert_eq!((number(&width), number(&height)), (30.0, 40.0))
        },
        other => panic!("{:?}", other),
    }
    match shape_of("<ellipse/>").unwrap() {
        ObjectShape::Ellipse { width, height } => {
            assert_eq!((number(&width), number(&height)), (30.0, 40.0))
        },
        other => panic!("{:?}", other),
    }
    match shape_of("<point/>").unwrap() {
        ObjectShape::Point(x, y) => assert_eq!((number(&x), number(&y)), (1.5, 2.0)),
        other => panic!("{:?}", other),
    }
}

#[test]
fn the_last_shape_of_an_object_counts() {
    assert!(matches!(shape_of("<ellipse/><point/>"), Ok(ObjectShape::Point(..))));
    assert!(matches!(shape_of("<point/><unknown><point/></unknown><ellipse/>"), Ok(ObjectShape::Ellipse { .. })));
}

#[test]
fn object_defaults() {
    let o = object_of(r#"x="3" y="4""#, "").unwrap();
    assert_eq!(o.id, 0);
    assert_eq!(o.gid, Gid(0));
    assert_eq!(o.gid, Gid::empty());
    assert_eq!(o.name, "");
    assert_eq!(o.obj_type, "");
    assert_eq!((number(&o.width), number(&o.height), number(&o.rotation)), (0.0, 0.0, 0.0));
    assert_eq!((number(&o.x), number(&o.y)), (3.0, 4.0));
    assert!(o.visible);
    assert!(o.properties.entries().is_empty());
}

#[test]
fn object_attributes() {
    let o = object_of(
        r#"id="7" gid="42" name="door" type="exit" x="1" y="2" width="3.5" height="4" rotation="-90" visible="0""#,
        r#"<properties><property name="locked" type="bool" value="true"/></properties>"#,
    )
    .unwrap();
    assert_eq!((o.id, o.gid), (7, Gid(42)));
    assert_eq!((o.name.as_str(), o.obj_type.as_str()), ("door", "exit"));
    assert_eq!((number(&o.width), number(&o.height), number(&o.rotation)), (3.5, 4.0, -90.0));
    assert!(!o.visible);
    assert_eq!(o.properties.get("locked"), Some(&PropertyValue::BoolValue(true)));
    assert_eq!(o.properties.get("open"), None);
}

#[test]
fn optional_attributes_of_the_wrong_form_take_their_default() {
    let o = object_of(r#"id="x" gid="-1" x="1" y="2" width="wide" visible="yes""#, "").unwrap();
    assert_eq!((o.id, o.gid), (0, Gid(0)));
    assert_eq!(number(&o.width), 0.0);
    assert!(o.visible);
}

#[test]
fn object_without_position_is_malformed() {
    let e = Err(malformed("objects must have an x and a y number"));
    assert_eq!(object_of(r#"x="1""#, ""), e);
    assert_eq!(object_of(r#"y="1""#, ""), e);
    assert_eq!(object_of(r#"x="one" y="1""#, ""), e);
}

#[test]
fn group_defaults_and_attributes() {
    let doc = r##"<map version="1.4" orientation="orthogonal" width="1" height="1" tilewidth="1" tileheight="1"><objectgroup/><objectgroup name="g" opacity="0.5" visible="0" color="#a0b0c0"><object x="0" y="0"/><object id="2" x="1" y="1"/><properties><property name="n" type="int" value="-3"/></properties></objectgroup></map>"##;
    let map = TiledMap::parse_reader(doc.as_bytes(), None).unwrap();
    let plain = &map.object_groups[0];
    assert_eq!(plain.name, "");
    assert_eq!(number(&plain.opacity), 1.0);
    assert!(plain.visible);
    assert_eq!(plain.color, None);
    assert_eq!(plain.layer_index, Some(0));
    assert!(plain.objects.is_empty());
    let g = &map.object_groups[1];
    assert_eq!(g.name, "g");
    assert_eq!(number(&g.opacity), 0.5);
    assert!(!g.visible);
    assert_eq!(g.color, Some(Color { red: 160, green: 176, blue: 192 }));
    assert_eq!(g.layer_index, Some(1));
    assert_eq!(g.objects.iter().map(|o| o.id).collect::<Vec<_>>(), vec![0, 2]);
    assert_eq!(g.properties.get("n"), Some(&PropertyValue::IntValue(-3)));
}

#[test]
fn group_that_is_no_layer_has_no_index() {
    let tokens = vec![
        Token::Start { name: "objectgroup".to_string(), attrs: vec![] },
        Token::Start {
            name: "object".to_string(),
            attrs: vec![
                Attribute { name: "x".to_string(), value: "1".to_string() },
                Attribute { name: "y".to_string(), value: "2".to_string() },
            ],
        },
        Token::End { name: "object".to_string() },
        Token::End { name: "objectgroup".to_string() },
    ];
    let (group, next) = ObjectGroup::new(&tokens, 0, None).unwrap();
    assert_eq!(next, 4);
    assert_eq!(group.layer_index, None);
    assert_eq!(group.objects.len(), 1);
    let (object, next) = Object::new(&tokens, 1).unwrap();
    assert_eq!(next, 3);
    assert_eq!(object, group.objects[0]);
}

#[test]
fn property_values() {
    let value = |kind: &str, text: &str| PropertyValue::new(kind, text);
    assert_eq!(value("string", "a b"), Ok(PropertyValue::StringValue("a b".to_string())));
    assert_eq!(value("file", "a.png"), Ok(PropertyValue::FileValue("a.png".to_string())));
    assert_eq!(value("bool", "false"), Ok(PropertyValue::BoolValue(false)));
    assert_eq!(value("int", "12"), Ok(PropertyValue::IntValue(12)));
    assert_eq!(value("object", "9"), Ok(PropertyValue::ObjectValue(9)));
    assert_eq!(value("float", "1.25"), Ok(PropertyValue::FloatValue(Decimal::parse("1.25").unwrap())));
    assert_eq!(
        value("color", "#ff102030"),
        Ok(PropertyValue::ColorValue(Color { red: 16, green: 32, blue: 48 }))
    );
    assert_eq!(
        value("colour", "x"),
        Err(TiledError::Other("Unknown property type: colour".to_string()))
    );
    for (kind, text) in [("bool", "1"), ("int", "1.5"), ("object", "-1"), ("float", "x"), ("color", "#12345")] {
        assert_eq!(
            value(kind, text),
            Err(TiledError::Other(format!("Invalid property value: {}", text)))
        );
    }
}

#[test]
fn colours() {
    assert_eq!(Color::parse("#FFffFF"), Some(Color { red: 255, green: 255, blue: 255 }));
    assert_eq!(Color::parse("0a0B0c"), Some(Color { red: 10, green: 11, blue: 12 }));
    assert_eq!(Color::parse("#80010203"), Some(Color { red: 1, green: 2, blue: 3 }));
    assert_eq!(Color::parse("#fff"), None);
    assert_eq!(Color::parse("#gg0000"), None);
    assert_eq!(Color::parse("#0000000"), None);
    assert_eq!(Color::parse(""), None);
    assert_eq!(Color::parse("#"), None);
    assert_eq!(Color::black(), Color { red: 0, green: 0, blue: 0 });
    assert_eq!(Color::from_str("#010203"), Ok(Color { red: 1, green: 2, blue: 3 }));
    assert_eq!(Color::from_str("red"), Err(tiled::ParseTileError::ColorError));
}

#[test]
fn a_later_property_replaces_an_earlier_one() {
    let o = object_of(
        r#"x="0" y="0""#,
        r#"<properties><property name="a" value="1"/><property name="b" type="int" value="2"/><property name="a" value="3"/><note/></properties>"#,
    )
    .unwrap();
    assert_eq!(o.properties.get("a"), Some(&PropertyValue::StringValue("3".to_string())));
    assert_eq!(o.properties.get("b"), Some(&PropertyValue::IntValue(2)));
    let mut p = Properties::new();
    assert_eq!(p.get("a"), None);
    p.insert("a".to_string(), PropertyValue::IntValue(1));
    p.insert("a".to_string(), PropertyValue::IntValue(2));
    assert_eq!(p.get("a"), Some(&PropertyValue::IntValue(2)));
}

#[test]
fn a_property_may_spell_its_value_as_text() {
    let o = object_of(
        r#"x="0" y="0""#,
        r#"<properties><property name="long">two
lines</property></properties>"#,
    )
    .unwrap();
    assert_eq!(o.properties.get("long"), Some(&PropertyValue::StringValue("two\nlines".to_string())));
}

#[test]
fn a_property_without_name_or_value_is_malformed() {
    let e = Err(malformed("property must have a name and a value"));
    assert_eq!(object_of(r#"x="0" y="0""#, r#"<properties><property value="1"/></properties>"#), e);
    assert_eq!(object_of(r#"x="0" y="0""#, r#"<properties><property name="a"/></properties>"#), e);
}

#[test]
fn a_property_of_unknown_type_names_the_type() {
    let r = object_of(
        r#"x="0" y="0""#,
        r#"<properties><property name="a" type="vector" value="1"/></properties>"#,
    );
    assert_eq!(r, Err(TiledError::Other("Unknown property type: vector".to_string())));
}
