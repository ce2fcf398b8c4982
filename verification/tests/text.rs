use tiled::{parse_i32, parse_u32, parse_usize, Decimal};

#[test]
fn unsigned_numbers() {
    assert_eq!(parse_u32("0"), Some(0));
    assert_eq!(parse_u32("+17"), Some(17));
    assert_eq!(parse_u32("007"), Some(7));
    assert_eq!(parse_u32("4294967295"), Some(u32::MAX));
    assert_eq!(parse_u32("4294967296"), None);
    assert_eq!(parse_u32(""), None);
    assert_eq!(parse_u32("+"), None);
    assert_eq!(parse_u32("-1"), None);
    assert_eq!(parse_u32("1 "), None);
    assert_eq!(parse_u32("12a"), None);
    assert_eq!(parse_usize("16"), Some(16));
    assert_eq!(parse_usize("x"), None);
}

#[test]
fn unsigned_numbers_agree_with_std() {
    for s in ["", "+", "-", "0", "+0", "-0", "12", "99999999999", "1e3", " 1", "١٢"] {
        assert_eq!(parse_u32(s), s.parse::<u32>().ok(), "{:?}", s);
        assert_eq!(parse_i32(s), s.parse::<i32>().ok(), "{:?}", s);
        assert_eq!(parse_usize(s), s.parse::<usize>().ok(), "{:?}", s);
    }
}

#[test]
fn signed_numbers() {
    assert_eq!(parse_i32("1"), Some(1));
    assert_eq!(parse_i32("-1"), Some(-1));
    assert_eq!(parse_i32("+1"), Some(1));
    assert_eq!(parse_i32("-2147483648"), Some(i32::MIN));
    assert_eq!(parse_i32("2147483647"), Some(i32::MAX));
    assert_eq!(parse_i32("2147483648"), None);
    assert_eq!(parse_i32("-2147483649"), None);
    assert_eq!(parse_i32("-"), None);
    assert_eq!(parse_i32("--1"), None);
}

#[test]
fn decimals_are_what_a_float_parser_takes() {
    let samples = [
        "0", "1", "-1", "+1", "3.14", "-3.14", "2.5E10", "2.5e10", "2.5E-10", "5.", ".5", "0.5",
        "7", "007", "inf", "-inf", "+infinity", "NaN", "INF", "", ".", "+", "-", "e5", "1e", "1e+",
        "1.2.3", " 1", "1 ", "1,5", "0x10", "infinit", "nan1", "1e5.0", "..5", "+.5e-3", "-.e1",
    ];
    for s in samples {
        let ours = Decimal::parse(s);
        assert_eq!(ours.is_some(), s.parse::<f32>().is_ok(), "{:?}", s);
        if let Some(d) = ours {
            assert_eq!(d.as_str(), s);
        }
    }
}

#[test]
fn decimal_constants() {
    assert_eq!(Decimal::zero().as_str().parse::<f32>(), Ok(0.0));
    assert_eq!(Decimal::one().as_str().parse::<f32>(), Ok(1.0));
    let d = Decimal::parse("10.5").unwrap();
    assert_eq!(d.clone(), d);
}
