use rusty_deps::versions::{get_version_diff, Version, VersionDiff};

fn v(major: u64, minor: u64, patch: u64, pre: &str, build: &str) -> Version {
    Version {
        major,
        minor,
        patch,
        pre: pre.to_string(),
        build: build.to_string(),
    }
}

#[test]
fn same_version_is_unchanged() {
    let a = v(1, 4, 2, "beta", "007");
    let b = v(1, 4, 2, "beta", "007");
    assert_eq!(get_version_diff(&a, &b), VersionDiff::Same);
    let c = v(0, 0, 0, "", "");
    assert_eq!(get_version_diff(&c, &c.clone()), VersionDiff::Same);
}

#[test]
fn classification_is_symmetric() {
    let pairs = vec![
        (v(1, 0, 0, "", ""), v(2, 0, 0, "", "")),
        (v(1, 1, 0, "", ""), v(1, 2, 0, "", "")),
        (v(1, 1, 1, "", ""), v(1, 1, 2, "", "")),
        (v(1, 1, 1, "alpha", ""), v(1, 1, 1, "beta", "")),
        (v(1, 1, 1, "a", "1"), v(1, 1, 1, "a", "2")),
        (v(1, 1, 1, "a", "1"), v(1, 1, 1, "a", "1")),
    ];
    for (a, b) in pairs {
        assert_eq!(get_version_diff(&a, &b), get_version_diff(&b, &a));
    }
}

#[test]
fn major_difference_dominates() {
    // every later field differs too, yet only the major difference counts
    let a = v(1, 9, 9, "alpha", "b1");
    let b = v(2, 0, 0, "beta", "b2");
    assert_eq!(get_version_diff(&a, &b), VersionDiff::Major);
}

#[test]
fn minor_difference_dominates_when_major_equal() {
    let a = v(3, 1, 9, "alpha", "b1");
    let b = v(3, 2, 0, "beta", "b2");
    assert_eq!(get_version_diff(&a, &b), VersionDiff::Minor);
}

#[test]
fn patch_difference_dominates_when_major_minor_equal() {
    let a = v(3, 1, 4, "alpha", "b1");
    let b = v(3, 1, 5, "beta", "b2");
    assert_eq!(get_version_diff(&a, &b), VersionDiff::Patch);
}

#[test]
fn pre_difference_dominates_when_triple_equal() {
    let a = v(3, 1, 4, "alpha", "b1");
    let b = v(3, 1, 4, "beta", "b2");
    assert_eq!(get_version_diff(&a, &b), VersionDiff::Pre);
}

#[test]
fn build_difference_when_all_else_equal() {
    let a = v(3, 1, 4, "rc.1", "b1");
    let b = v(3, 1, 4, "rc.1", "b2");
    assert_eq!(get_version_diff(&a, &b), VersionDiff::Build);
}

#[test]
fn pre_is_compared_as_opaque_text() {
    // "alpha" vs "beta" is merely different, not ordered
    let a = v(1, 0, 0, "alpha", "");
    let b = v(1, 0, 0, "beta", "");
    assert_eq!(get_version_diff(&a, &b), VersionDiff::Pre);
    assert_eq!(get_version_diff(&b, &a), VersionDiff::Pre);
}
