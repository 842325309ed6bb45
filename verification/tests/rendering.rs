use rusty_deps::dependencies::{Dependencies, Dependency};
use rusty_deps::versions::{parse_version, version_to_string, Version, VersionDiff};

fn ver(text: &str) -> Version {
    parse_version(text).expect("test version must parse")
}

fn example_set() -> Dependencies {
    let a = Dependency::new("left-pad".to_string(), ver("1.2.3"), ver("1.2.3"));
    let b = Dependency::new("serde".to_string(), ver("1.0.0"), ver("2.0.0"));
    Dependencies::from_vec(vec![a, b])
}

#[test]
fn table_has_no_emphasis_when_color_is_off() {
    colored::control::set_override(false);
    let table = example_set().render_table();
    let expected =
        "Name       Version   Latest\nleft-pad   1.2.3     1.2.3\nserde      1.0.0     2.0.0";
    assert_eq!(table, expected);
}

#[test]
fn table_emphasizes_only_the_drifted_field() {
    colored::control::set_override(true);
    let table = example_set().render_table();
    let lines: Vec<&str> = table.split('\n').collect();
    assert_eq!(lines.len(), 3);
    // headers are bold
    assert_eq!(
        lines[0],
        "\u{1b}[1mName\u{1b}[0m       \u{1b}[1mVersion\u{1b}[0m   \u{1b}[1mLatest\u{1b}[0m"
    );
    // the unchanged row carries no emphasis at all
    assert_eq!(lines[1], "left-pad   1.2.3     1.2.3");
    // only the major field of each version in the drifted row is emphasized
    assert_eq!(
        lines[2],
        "serde      \u{1b}[31m1\u{1b}[0m.0.0     \u{1b}[31m2\u{1b}[0m.0.0"
    );
    colored::control::unset_override();
}

#[test]
fn widths_follow_the_visible_text_not_the_markup() {
    colored::control::set_override(true);
    let table = example_set().render_table();
    colored::control::unset_override();
    let visible: String = {
        // strip SGR sequences: ESC '[' ... 'm'
        let mut out = String::new();
        let mut in_escape = false;
        for c in table.chars() {
            if in_escape {
                if c == 'm' {
                    in_escape = false;
                }
            } else if c == '\u{1b}' {
                in_escape = true;
            } else {
                out.push(c);
            }
        }
        out
    };
    colored::control::set_override(false);
    let plain = example_set().render_table();
    colored::control::unset_override();
    assert_eq!(visible, plain);
}

#[test]
fn styled_version_emphasizes_the_named_field() {
    colored::control::set_override(true);
    let v = ver("1.4.2-beta+007");
    assert_eq!(
        version_to_string(&v, &VersionDiff::Pre),
        "1.4.2-\u{1b}[31mbeta\u{1b}[0m+007"
    );
    assert_eq!(
        version_to_string(&v, &VersionDiff::Build),
        "1.4.2-beta+\u{1b}[31m007\u{1b}[0m"
    );
    assert_eq!(version_to_string(&v, &VersionDiff::Same), "1.4.2-beta+007");
    colored::control::unset_override();
}

#[test]
fn plain_version_text_when_color_is_off() {
    colored::control::set_override(false);
    let v = ver("3.2.1");
    assert_eq!(version_to_string(&v, &VersionDiff::Major), "3.2.1");
    colored::control::unset_override();
}
