use cleaner::app_info::organization_from;
use cleaner::paths::label;
use cleaner::text::{decimal, join_strings, str_contains};
use cleaner::{normalize_lowercase, path_contains_ignore_case, path_equals_ignore_case, AppInfo, MatchRules};

fn foo_app() -> AppInfo {
    AppInfo {
        path: "/Applications/Foo.app".to_string(),
        name: "Foo".to_string(),
        bundle_id: "com.acme.Foo".to_string(),
        bundle_name: "Foo".to_string(),
        organization: "acme".to_string(),
    }
}

#[test]
fn bundle_id_directory_matches_by_contains_rule() {
    let app = foo_app();
    assert!(app.associate_path_matches("/Users/u/Library/Caches/com.acme.Foo"));
    assert!(app.associate_path_matches("/Users/u/Library/Caches/com.acme.Foo.savedState"));
}

#[test]
fn file_inside_bundle_id_directory_is_judged_by_its_own_name() {
    let app = foo_app();
    assert!(!app.associate_path_matches("/Users/u/Library/Caches/com.acme.Foo/cache.db"));
}

#[test]
fn other_name_containing_display_name_does_not_match() {
    let app = foo_app();
    assert!(!app.associate_path_matches("/Users/u/Library/Caches/SomeOtherFoo"));
    assert!(!app.associate_path_matches("/Users/u/Library/Caches/SomeOtherFoo/x"));
}

#[test]
fn organization_matches_by_equal_rule_only() {
    let app = foo_app();
    assert!(app.associate_path_matches("/Users/u/Library/Application Support/acme"));
    assert!(!app.associate_path_matches("/Users/u/Library/Application Support/acme-tools"));
}

#[test]
fn matching_ignores_case_and_normalization() {
    let app = foo_app();
    assert!(app.associate_path_matches("/Library/Logs/FOO"));
    assert!(app.associate_path_matches("/Library/Preferences/COM.ACME.FOO.plist"));
    assert!(path_equals_ignore_case("/x/Caf\u{e9}", "CAFE\u{301}"));
    assert!(path_contains_ignore_case("/x/Re\u{301}sume\u{301}.txt", "R\u{c9}SUM\u{c9}"));
}

#[test]
fn only_the_final_component_is_compared() {
    assert!(!path_equals_ignore_case("/foo/bar", "foo"));
    assert!(!path_contains_ignore_case("/com.acme.Foo/bar", "com.acme.foo"));
    assert!(path_equals_ignore_case("/x/foo/", "Foo"));
    assert!(!path_equals_ignore_case("/", ""));
    assert!(!path_contains_ignore_case("/x/..", ""));
}

#[test]
fn normalize_lowercase_decomposes_then_lowers() {
    assert_eq!(normalize_lowercase("\u{c9}T\u{c9}"), "e\u{301}te\u{301}");
    assert_eq!(normalize_lowercase("ABC"), "abc");
    assert_eq!(normalize_lowercase(""), "");
}

#[test]
fn rules_match_when_any_rule_holds() {
    let app = foo_app();
    let rules = [(MatchRules::Equal, "bar"), (MatchRules::Contain, "acme")];
    assert!(app.rules_matches("/x/my-acme-dir", &rules));
    assert!(app.rules_matches("/x/BAR", &rules));
    assert!(!app.rules_matches("/x/baz", &rules));
    assert!(!app.rules_matches("/x/acme", &[]));
    assert!(MatchRules::Contain.match_path("/x/abc", "B"));
    assert!(!MatchRules::Equal.match_path("/x/abc", "B"));
}

#[test]
fn organization_is_second_dot_component() {
    assert_eq!(organization_from("com.acme.Foo"), "acme");
    assert_eq!(organization_from("com.acme"), "acme");
    assert_eq!(organization_from("com..Foo"), "");
    assert_eq!(organization_from("single"), "");
    assert_eq!(organization_from(""), "");
    assert_eq!(organization_from("a.b.c.d"), "b");
}

#[test]
fn substring_search() {
    assert!(str_contains("hello world", "o w"));
    assert!(str_contains("abc", ""));
    assert!(str_contains("abc", "abc"));
    assert!(!str_contains("abc", "abcd"));
    assert!(!str_contains("", "a"));
    assert!(str_contains("h\u{e9}llo", "\u{e9}l"));
}

#[test]
fn decimal_rendering() {
    assert_eq!(decimal(0), "0");
    assert_eq!(decimal(513), "513");
    assert_eq!(decimal(-42), "-42");
    assert_eq!(decimal(i64::MAX), "9223372036854775807");
    assert_eq!(decimal(i64::MIN), "-9223372036854775808");
}

#[test]
fn joining_with_separator() {
    assert_eq!(join_strings(&vec![], " "), "");
    assert_eq!(join_strings(&vec!["a".to_string()], " "), "a");
    assert_eq!(join_strings(&vec!["a".to_string(), "b c".to_string(), "d".to_string()], " "), "a b c d");
}

#[test]
fn labels_are_final_components() {
    assert_eq!(label("/a/b/c.txt"), "c.txt");
    assert_eq!(label("/a/b/"), "b");
    assert_eq!(label("/"), "/");
    assert_eq!(label("/a/.."), "/a/..");
}
