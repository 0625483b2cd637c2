use npm_utils::dependency::{
    range_covers, split_name_range, validate_package_name, Range, Spec,
};
use npm_utils::json::Json;
use npm_utils::path::{
    ancestors, file_name, is_within, join_path, parent, path_segments, safe_join,
};
use npm_utils::text::{
    after_prefix, before, begins_with, contains, join, number_text, split, split_once,
    split_words, tail_after, to_lower, trim,
};
use npm_utils::version::{refused, satisfied_by, Version};
use npm_utils::windows::{from_windows, on_drive, past_root, to_windows};

fn version(text: &str) -> Version {
    Version::parse(text).unwrap()
}

#[test]
fn texts_are_cut_and_joined() {
    assert_eq!(split("a/b//c", "/"), ["a", "b", "", "c"]);
    assert_eq!(split("", "/"), [""]);
    assert_eq!(
        split_once("a=b=c", "="),
        Some(("a".to_string(), "b=c".to_string()))
    );
    assert_eq!(split_once("abc", "="), None);
    assert_eq!(split_words("  ^1   || \t^2 "), ["^1", "||", "^2"]);
    assert_eq!(trim(" \n x y \t"), "x y");
    assert_eq!(
        join(&vec!["a".to_string(), "b".to_string()], ", "),
        "a, b"
    );
    assert_eq!(tail_after("@s/p", '/'), "p");
    assert_eq!(tail_after("p", '/'), "p");
    assert_eq!(after_prefix("file:x", "file:").as_deref(), Some("x"));
    assert!(begins_with("abc", "ab") && !begins_with("a", "ab"));
    assert!(contains("abc", "bc") && !contains("abc", "cb"));
}

#[test]
fn numbers_cases_and_order() {
    assert_eq!(number_text(0), "0");
    assert_eq!(number_text(18446744073709551615), "18446744073709551615");
    assert_eq!(to_lower("HIGH-9é"), "high-9é");
    assert!(before("a", "b") && before("a", "aa") && !before("b", "a"));
    assert!(before("Z", "a") && before("z", "é"));
    assert!(!before("a", "a"));
}

#[test]
fn documents_are_read_and_looked_into() {
    let doc = Json::parse(
        br#"{ "s": "x", "n": 1.50, "t": true, "f": false, "z": null, "l": ["a", 1, "b"], "o": { "k": "v" } }"#,
    )
    .unwrap();
    assert_eq!(doc.text_at("s").as_deref(), Some("x"));
    assert_eq!(doc.text_at("n"), None);
    assert!(doc.is_true_at("t") && !doc.is_true_at("f") && !doc.is_true_at("s"));
    assert_eq!(doc.strings_at("l"), ["a", "b"]);
    assert_eq!(doc.array_at("l").unwrap().len(), 3);
    assert_eq!(
        doc.get("o").unwrap().get("k").unwrap().as_str(),
        Some("v")
    );
    assert_eq!(doc.get("z"), Some(&Json::Null));
    assert_eq!(doc.get("absent"), None);
    let err = Json::parse(b"{").unwrap_err();
    assert!(err.contains("EOF"), "{err}");
    assert!(Json::parse(b"\xff").is_err());
}

#[test]
fn versions_are_ordered_as_releases() {
    assert!(version("1.9.0").older_than(&version("1.10.0")));
    assert!(version("1.0.0-rc.1").older_than(&version("1.0.0")));
    assert!(!version("1.0.0").older_than(&version("1.0.0")));
    assert_eq!(version("1.2.3-a+b").to_string(), "1.2.3-a+b");
    let err = Version::parse("one").unwrap_err();
    assert!(err.contains("unexpected character"), "{err}");
    assert!(Version::parse("").is_err());
}

#[test]
fn requirements_admit_versions() {
    assert_eq!(refused("^1.2"), None);
    assert!(refused("%").is_some());
    assert!(satisfied_by("^1.2", &version("1.9.0")));
    assert!(!satisfied_by("^1.2", &version("2.0.0")));
    assert!(satisfied_by("=1.2.3", &version("1.2.3")));
}

#[test]
fn ranges_are_alternatives_of_requirements() {
    let range = Range::parse("^1 || >=3.1 <3.2").unwrap();
    assert!(range.matches(&version("1.4.0")));
    assert!(range.matches(&version("3.1.9")));
    assert!(!range.matches(&version("2.0.0")) && !range.matches(&version("3.2.0")));
    assert!(Range::any().matches(&version("9.9.9")));
    let exact = Range::parse("1.2.3").unwrap();
    assert!(exact.matches(&version("1.2.3")) && !exact.matches(&version("1.2.4")));
    let partial = Range::parse("1.2").unwrap();
    assert!(partial.matches(&version("1.2.9")) && !partial.matches(&version("1.3.0")));
    let spaced = Range::parse(">= 1.2 < 2").unwrap();
    assert!(spaced.matches(&version("1.9.0")) && !spaced.matches(&version("2.0.0")));
    assert_eq!(
        Range::parse("next").unwrap_err(),
        "dist-tag \"next\" is not supported, write a version range"
    );
    assert!(Range::parse("").unwrap().matches(&version("1.0.0")));
    assert!(Range::parse("1.x.y.z").is_err());
}

#[test]
fn package_names_stay_inside_node_modules() {
    for name in ["lit", "@scope/pkg", "a.b-c_d"] {
        assert!(validate_package_name(name).is_ok(), "{name}");
    }
    for name in ["", "..", "/etc", "a/../b", "foo..bar", "a//b", ".", "@s/", "a b"] {
        assert!(validate_package_name(name).is_err(), "{name}");
    }
}

#[test]
fn dependency_values_are_told_apart() {
    assert!(matches!(Spec::parse("^1"), Spec::Registry(_)));
    assert!(matches!(Spec::parse("git+ssh://h/r.git"), Spec::Git { .. }));
    assert!(matches!(Spec::parse("user/repo"), Spec::Git { .. }));
    assert!(matches!(Spec::parse("https://h/x.tgz"), Spec::Tarball(_)));
    assert!(matches!(Spec::parse("file:../x"), Spec::Path(_)));
    match Spec::parse("npm:real@^2") {
        Spec::Alias { name, .. } => assert_eq!(name, "real"),
        _ => panic!("not an alias"),
    }
    assert_eq!(
        split_name_range("@s/p@^1"),
        ("@s/p".to_string(), Some("^1".to_string()))
    );
}

#[test]
fn white_space_around_a_range_does_not_count() {
    assert_eq!(
        Range::parse("  ^1 || >=3.1 <3.2\t").unwrap(),
        Range::parse("^1 || >=3.1 <3.2").unwrap()
    );
    assert_eq!(Range::parse("   ").unwrap(), Range::parse("").unwrap());
}

#[test]
fn a_range_covers_its_own_versions() {
    assert!(range_covers("1.2.3", "1.2.3"));
    assert!(range_covers("<2.0.0", "1.9.9"));
    assert!(!range_covers("<2.0.0", "2.0.0"));
}

#[test]
fn paths_are_joined_only_inside() {
    assert_eq!(join_path("/a/", "b"), "/a/b");
    assert_eq!(join_path("/a", "b"), "/a/b");
    assert_eq!(safe_join("/a", "b/c").unwrap(), "/a/b/c");
    for outside in ["..", "/etc", "b/../../c"] {
        assert!(safe_join("/a", outside).is_err(), "{outside}");
    }
    assert_eq!(path_segments("/a//./b/"), ["a", "b"]);
    assert_eq!(file_name("/a/b.json").as_deref(), Some("b.json"));
    assert_eq!(file_name("/"), None);
    assert!(is_within("/a/b", "/a") && is_within("/a", "/a") && !is_within("/ab", "/a"));
    assert_eq!(parent("/a/b").as_deref(), Some("/a"));
    assert_eq!(parent("/"), None);
    assert_eq!(ancestors("/a/b"), ["/a/b", "/a", "/"]);
}

#[test]
fn documents_are_written_back() {
    let text = br#"{"a":[1,true,null,"x\ny"],"b":{"c":1.5}}"#;
    let doc = Json::parse(text).unwrap();
    assert_eq!(doc.to_bytes().unwrap(), text);
    assert_eq!(Json::Text("\"".to_string()).to_bytes().unwrap(), br#""\"""#);
    assert!(Json::Number("one".to_string()).to_bytes().is_err());
}

#[test]
fn windows_paths_are_turned_and_come_back() {
    for (path, turned) in [
        (r"C:\web\icons", "/C:/web/icons"),
        (r"C:\", "/C:/"),
        (r"\\server\share\web", "//server/share/web"),
        (r"web\icons", "web/icons"),
        ("", ""),
    ] {
        assert_eq!(from_windows(path), turned);
        assert_eq!(to_windows(turned), path);
    }
    assert_eq!(from_windows(r"\\?\C:\web"), "/C:/web");
    assert_eq!(from_windows(r"\\?\UNC\server\share"), "//server/share");
    assert_eq!(from_windows("C:web"), "C:web", "relative to the drive's directory");
    assert_eq!(to_windows("/C:"), r"C:\", "a drive alone is its root");
    assert!(on_drive("/C:/web") && !on_drive("/web"));
}

#[test]
fn windows_paths_ascend_to_their_drive() {
    let levels = ancestors(&from_windows(r"C:\web\icons"));
    assert_eq!(levels, ["/C:/web/icons", "/C:/web", "/C:", "/"]);
    let outside: Vec<bool> = levels
        .iter()
        .map(|level| past_root("/C:/web/icons", level))
        .collect();
    assert_eq!(outside, [false, false, false, true]);
    assert!(!past_root("/web", "/") && !past_root("web", "/"));
    assert!(is_within(&from_windows(r"\\?\C:\web\a"), &from_windows(r"C:\web")));
    assert!(!is_within(&from_windows(r"D:\web"), &from_windows(r"C:\web")));
}
