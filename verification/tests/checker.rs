use cargo_sane::analyzer::checker::{normalize_version, parse_version_req};
use cargo_sane::model::version::Version;

#[test]
fn test_normalize_version() {
    assert_eq!(normalize_version("1"), "1.0.0");
    assert_eq!(normalize_version("1.0"), "1.0.0");
    assert_eq!(normalize_version("1.0.5"), "1.0.5");
    assert_eq!(normalize_version("1.35"), "1.35.0");
}

#[test]
fn test_parse_version_req() {
    assert_eq!(parse_version_req("1.0.5"), Some(Version::new(1, 0, 5)));
    assert_eq!(parse_version_req("1.0"), Some(Version::new(1, 0, 0)));
    assert_eq!(parse_version_req("1"), Some(Version::new(1, 0, 0)));
    assert_eq!(parse_version_req("^1.0.5"), Some(Version::new(1, 0, 5)));
    assert_eq!(parse_version_req("~1.0.5"), Some(Version::new(1, 0, 5)));
    assert_eq!(parse_version_req("1.35"), Some(Version::new(1, 35, 0)));
}

#[test]
fn canonical_triple_is_read_as_it_stands() {
    assert_eq!(parse_version_req("0.0.0"), Some(Version::new(0, 0, 0)));
    assert_eq!(parse_version_req("12.34.56"), Some(Version::new(12, 34, 56)));
    assert_eq!(
        parse_version_req("18446744073709551615.0.1"),
        Some(Version::new(u64::MAX, 0, 1))
    );
}

#[test]
fn missing_components_are_padded_with_zero() {
    assert_eq!(parse_version_req("7"), Some(Version::new(7, 0, 0)));
    assert_eq!(parse_version_req("7.3"), Some(Version::new(7, 3, 0)));
    assert_eq!(normalize_version("a.b.c.d"), "a.b.c.d");
    assert_eq!(normalize_version(""), ".0.0");
}

#[test]
fn each_operator_is_stripped_once() {
    for op in ["^", "~", "=", ">", "<"] {
        let req = format!("{}2.3.4", op);
        assert_eq!(parse_version_req(&req), parse_version_req("2.3.4"));
        assert_eq!(parse_version_req(&req), Some(Version::new(2, 3, 4)));
    }
    assert_eq!(parse_version_req("^^2.3.4"), None);
    assert_eq!(parse_version_req(">=2.3.4"), None);
}

#[test]
fn white_space_around_the_requirement_is_ignored() {
    assert_eq!(parse_version_req("  ^ 1.2.3\t"), Some(Version::new(1, 2, 3)));
    assert_eq!(parse_version_req(" 1.2 "), Some(Version::new(1, 2, 0)));
}

#[test]
fn what_is_no_version_is_not_read() {
    assert_eq!(parse_version_req(""), None);
    assert_eq!(parse_version_req("abc"), None);
    assert_eq!(parse_version_req("1.x"), None);
    assert_eq!(parse_version_req(">=1.0.0, <2.0.0"), None);
    assert_eq!(parse_version_req("01.2.3"), None);
    assert_eq!(parse_version_req("1.2.3.4"), None);
}

#[test]
fn tags_are_kept() {
    let v = parse_version_req("^1.2.3-alpha.1+build.5").unwrap();
    assert_eq!((v.major(), v.minor(), v.patch()), (1, 2, 3));
    assert_eq!(v.pre(), "alpha.1");
    assert_eq!(v.build(), "build.5");
    assert_eq!(v.to_text(), "1.2.3-alpha.1+build.5");
}
