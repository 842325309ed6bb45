use rusty_deps::dependencies::{parse_declared, Dependencies, Dependency, RegistryError};
use rusty_deps::versions::{parse_version, Version, VersionDiff};

fn ver(text: &str) -> Version {
    parse_version(text).expect("test version must parse")
}

fn declared(entries: &[(&str, &str)]) -> Vec<(String, Version)> {
    entries
        .iter()
        .map(|(n, v)| (n.to_string(), ver(v)))
        .collect()
}

#[test]
fn resolve_preserves_manifest_order() {
    // fetched results stand in input order however the fetches finished
    let decl = declared(&[("zlib", "1.0.0"), ("alpha", "2.0.0"), ("midl", "3.0.0")]);
    let fetched: Vec<Result<Version, RegistryError>> =
        vec![Ok(ver("1.0.1")), Ok(ver("2.1.0")), Ok(ver("4.0.0"))];
    let ds = Dependencies::resolve(&decl, &fetched).expect("must resolve");
    assert_eq!(ds.len(), 3);
    assert_eq!(ds.get(0).name().as_str(), "zlib");
    assert_eq!(ds.get(1).name().as_str(), "alpha");
    assert_eq!(ds.get(2).name().as_str(), "midl");
    assert_eq!(ds.get(0).version_diff(), VersionDiff::Patch);
    assert_eq!(ds.get(1).version_diff(), VersionDiff::Minor);
    assert_eq!(ds.get(2).version_diff(), VersionDiff::Major);
}

#[test]
fn one_failed_fetch_fails_the_whole_run() {
    let decl = declared(&[("a", "1.0.0"), ("b", "1.0.0"), ("c", "1.0.0")]);
    let fetched: Vec<Result<Version, RegistryError>> = vec![
        Ok(ver("1.0.0")),
        Err(RegistryError::Transport),
        Ok(ver("1.0.0")),
    ];
    let err = Dependencies::resolve(&decl, &fetched).expect_err("must fail");
    assert_eq!(err.index, 1);
    assert_eq!(err.error, RegistryError::Transport);
}

#[test]
fn first_failure_in_input_order_is_reported() {
    let decl = declared(&[("a", "1.0.0"), ("b", "1.0.0"), ("c", "1.0.0")]);
    let fetched: Vec<Result<Version, RegistryError>> = vec![
        Ok(ver("1.0.0")),
        Err(RegistryError::NotFound),
        Err(RegistryError::Parse),
    ];
    let err = Dependencies::resolve(&decl, &fetched).expect_err("must fail");
    assert_eq!(err.index, 1);
    assert_eq!(err.error, RegistryError::NotFound);
}

#[test]
fn parse_declared_keeps_names_and_order() {
    let entries = vec![
        ("serde".to_string(), "1.0.0".to_string()),
        ("rand".to_string(), "0.8.5".to_string()),
    ];
    let parsed = parse_declared(&entries).expect("must parse");
    assert_eq!(parsed.len(), 2);
    assert_eq!(parsed[0].0, "serde");
    assert_eq!(parsed[0].1, ver("1.0.0"));
    assert_eq!(parsed[1].0, "rand");
    assert_eq!(parsed[1].1, ver("0.8.5"));
}

#[test]
fn parse_declared_reports_first_bad_entry() {
    let entries = vec![
        ("good".to_string(), "1.0.0".to_string()),
        ("bad".to_string(), "not-a-version".to_string()),
        ("worse".to_string(), "also bad".to_string()),
    ];
    let err = parse_declared(&entries).expect_err("must fail");
    assert_eq!(err.index, 1);
}

#[test]
fn filter_keeps_only_outdated_in_order() {
    let a = Dependency::new("A".to_string(), ver("1.0.0"), ver("1.0.0"));
    let b = Dependency::new("B".to_string(), ver("1.0.0"), ver("1.1.0"));
    let c = Dependency::new("C".to_string(), ver("1.0.0"), ver("2.0.0"));
    assert_eq!(a.version_diff(), VersionDiff::Same);
    assert_eq!(b.version_diff(), VersionDiff::Minor);
    assert_eq!(c.version_diff(), VersionDiff::Major);
    let mut ds = Dependencies::from_vec(vec![a, b, c]);
    ds.outdated();
    assert_eq!(ds.len(), 2);
    assert_eq!(ds.get(0).name().as_str(), "B");
    assert_eq!(ds.get(0).version_diff(), VersionDiff::Minor);
    assert_eq!(ds.get(1).name().as_str(), "C");
    assert_eq!(ds.get(1).version_diff(), VersionDiff::Major);
    // filtering again changes nothing
    ds.outdated();
    assert_eq!(ds.len(), 2);
    assert_eq!(ds.get(0).name().as_str(), "B");
    assert_eq!(ds.get(1).name().as_str(), "C");
}

#[test]
fn update_request_names_each_latest_version_in_order() {
    let a = Dependency::new("a".to_string(), ver("1.0.0"), ver("1.1.0"));
    let b = Dependency::new("b".to_string(), ver("2.0.0"), ver("3.0.0"));
    let mut ds = Dependencies::from_vec(vec![a, b]);
    ds.outdated();
    let args = ds.update_args();
    assert_eq!(args, vec!["a@1.1.0".to_string(), "b@3.0.0".to_string()]);
}
