use shotgun::geometry::Rect;
use shotgun::parse::parse_geometry;
use shotgun::parse::parse_int;

#[test]
fn test_parse_geometry() {
    let res = Some(Rect { w: 80, h: 24, x: 300, y: -49 });
    assert_eq!(parse_geometry("=80x24+300-49"), res);
    assert_eq!(parse_geometry("80x24+300-49"), res);
}

#[test]
fn test_parse_geometry_missing_field() {
    assert_eq!(parse_geometry("80x24+300"), None);
}

#[test]
fn test_parse_geometry_malformed() {
    assert_eq!(parse_geometry(""), None);
    assert_eq!(parse_geometry("80x24"), None);
    assert_eq!(parse_geometry("x24+1+1"), None);
    assert_eq!(parse_geometry("80y24+1+1"), None);
    assert_eq!(parse_geometry("80x24+300-49z"), None);
    assert_eq!(parse_geometry("80x24 +300-49"), None);
    assert_eq!(parse_geometry("123456x24+1+1"), None);
    assert_eq!(parse_geometry("80x24+123456+1"), None);
}

#[test]
fn test_parse_geometry_variants() {
    assert_eq!(
        parse_geometry("1x1-2-3"),
        Some(Rect { w: 1, h: 1, x: -2, y: -3 })
    );
    assert_eq!(parse_geometry("1X1-2-3"), None);
    assert_eq!(
        parse_geometry("=99999x99999+99999-99999"),
        Some(Rect { w: 99999, h: 99999, x: 99999, y: -99999 })
    );
}

#[test]
fn test_parse_int_decimal() {
    assert_eq!(parse_int("123"), Some(123));
    assert_eq!(parse_int("0"), Some(0));
    assert_eq!(parse_int("+10"), Some(10));
    assert_eq!(parse_int("4294967295"), Some(u32::MAX));
    assert_eq!(parse_int("4294967296"), None);
    assert_eq!(parse_int(""), None);
    assert_eq!(parse_int("12a"), None);
    assert_eq!(parse_int("-0"), None);
    assert_eq!(parse_int("-5"), None);
    assert_eq!(parse_int("+"), None);
}

#[test]
fn test_parse_int_prefixes() {
    assert_eq!(parse_int("0x1A2"), Some(0x1A2));
    assert_eq!(parse_int("0Xff"), Some(255));
    assert_eq!(parse_int("0o17"), Some(15));
    assert_eq!(parse_int("0B101"), Some(5));
    assert_eq!(parse_int("0b102"), None);
    assert_eq!(parse_int("0x"), None);
    assert_eq!(parse_int("0o8"), None);
}
