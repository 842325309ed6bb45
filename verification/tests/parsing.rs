use rusty_deps::manifest::parse_dep_lines;
use rusty_deps::versions::{parse_version, version_plain_string, Version};

#[test]
fn round_trip_full_version() {
    let v = parse_version("1.4.2-beta+007").expect("must parse");
    assert_eq!(v.major, 1);
    assert_eq!(v.minor, 4);
    assert_eq!(v.patch, 2);
    assert_eq!(v.pre, "beta");
    assert_eq!(v.build, "007");
    assert_eq!(version_plain_string(&v), "1.4.2-beta+007");
}

#[test]
fn parses_bare_triple() {
    let v = parse_version("0.10.3").expect("must parse");
    assert_eq!((v.major, v.minor, v.patch), (0, 10, 3));
    assert_eq!(v.pre, "");
    assert_eq!(v.build, "");
    assert_eq!(version_plain_string(&v), "0.10.3");
}

#[test]
fn parses_pre_only_and_build_only() {
    let v = parse_version("2.0.0-rc.1").expect("must parse");
    assert_eq!(v.pre, "rc.1");
    assert_eq!(v.build, "");
    let v = parse_version("2.0.0+build-5").expect("must parse");
    assert_eq!(v.pre, "");
    assert_eq!(v.build, "build-5");
}

#[test]
fn pre_may_hold_hyphens() {
    let v = parse_version("1.2.3-a-b-c+x").expect("must parse");
    assert_eq!(v.pre, "a-b-c");
    assert_eq!(v.build, "x");
    assert_eq!(version_plain_string(&v), "1.2.3-a-b-c+x");
}

#[test]
fn parses_largest_component() {
    // nineteen digits, the widest numeric component the grammar admits
    let v = parse_version("9999999999999999999.0.1").expect("must parse");
    assert_eq!(v.major, 9999999999999999999);
    assert_eq!(version_plain_string(&v), "9999999999999999999.0.1");
}

#[test]
fn parsed_text_renders_back_identically() {
    let texts = vec![
        "0.0.0",
        "1.2.3",
        "10.20.30",
        "1.0.0-alpha.1",
        "2.5.1+nightly",
        "9.9.9-x.y-z+b-2.c",
    ];
    for t in texts {
        let v = parse_version(t).expect("must parse");
        assert_eq!(version_plain_string(&v), t);
    }
}

#[test]
fn rejects_malformed_versions() {
    assert!(parse_version("").is_err());
    assert!(parse_version("1").is_err());
    assert!(parse_version("1.2").is_err());
    assert!(parse_version("1.2.3.4").is_err());
    assert!(parse_version("01.2.3").is_err());
    assert!(parse_version("1.02.3").is_err());
    assert!(parse_version("a.b.c").is_err());
    assert!(parse_version("1.2.3-").is_err());
    assert!(parse_version("1.2.3+").is_err());
    assert!(parse_version("1.2.3-b~d").is_err());
    assert!(parse_version("1.2.3 ").is_err());
    // twenty digits overflow the numeric grammar
    assert!(parse_version("99999999999999999999.0.0").is_err());
}

#[test]
fn zero_is_canonical_but_leading_zeros_are_not() {
    let v = parse_version("0.0.0").expect("must parse");
    assert_eq!((v.major, v.minor, v.patch), (0, 0, 0));
    assert!(parse_version("0.00.0").is_err());
}

#[test]
fn renders_empty_fields_without_separators() {
    let v = Version {
        major: 7,
        minor: 0,
        patch: 12,
        pre: String::new(),
        build: String::new(),
    };
    assert_eq!(version_plain_string(&v), "7.0.12");
}

#[test]
fn reads_listing_lines_after_heading() {
    let listing = "myproj v0.1.0 (/tmp/myproj)\nserde v1.0.0\nleft-pad v1.2.3 extra\n";
    let entries = parse_dep_lines(listing).expect("must read");
    assert_eq!(entries.len(), 2);
    assert_eq!(entries[0].0, "serde");
    assert_eq!(entries[0].1, "1.0.0");
    assert_eq!(entries[1].0, "left-pad");
    assert_eq!(entries[1].1, "1.2.3");
}

#[test]
fn empty_listing_reads_as_no_dependencies() {
    assert_eq!(parse_dep_lines("").expect("must read").len(), 0);
    assert_eq!(parse_dep_lines("heading only\n").expect("must read").len(), 0);
}

#[test]
fn listing_line_without_version_token_is_an_error() {
    let listing = "heading\nserde v1.0.0\nbroken\n";
    let err = parse_dep_lines(listing).expect_err("must fail");
    assert_eq!(err.line, 2);
}
