use cleaner::app_data::{dedup_paths, progress_due, PROGRESS_BATCH, WALK_DEPTH};
use cleaner::paths::flatten_paths;
use cleaner::{AppData, AppInfo, Cleaner, LocationsScan, LogReceipt};
use std::collections::HashSet;

fn foo_app() -> AppInfo {
    AppInfo {
        path: "/Applications/Foo.app".to_string(),
        name: "Foo".to_string(),
        bundle_id: "com.acme.Foo".to_string(),
        bundle_name: "FooExec".to_string(),
        organization: "acme".to_string(),
    }
}

fn s(v: &[&str]) -> Vec<String> {
    v.iter().map(|x| x.to_string()).collect()
}

fn data() -> AppData {
    let mut d = AppData::empty();
    d.app = foo_app();
    d
}

fn pairs(v: &[(String, String)]) -> Vec<(&str, &str)> {
    v.iter().map(|(a, b)| (a.as_str(), b.as_str())).collect()
}

#[test]
fn scan_keeps_matches_dedups_and_appends_bundle() {
    let visited = vec![
        s(&["/L/Caches", "/L/Caches/com.acme.Foo", "/L/Caches/com.acme.Foo/cache.db", "/L/Caches/other"]),
        s(&["/L/Logs", "/L/Logs/Foo", "/L/Caches/com.acme.Foo"]),
        s(&["/L/Application Support/acme", "/L/Application Support/acme-tools", "/L/bin/FooExec"]),
    ];
    let mut d = data();
    d.find_associate_files(&visited);
    assert_eq!(
        pairs(&d.associate_files),
        vec![
            ("/L/Caches/com.acme.Foo", "com.acme.Foo"),
            ("/L/Logs/Foo", "Foo"),
            ("/L/Application Support/acme", "acme"),
            ("/L/bin/FooExec", "FooExec"),
            ("/Applications/Foo.app", "Foo"),
        ]
    );
}

#[test]
fn scan_with_no_matches_lists_only_the_bundle() {
    let mut d = data();
    d.find_associate_files(&vec![s(&["/a", "/a/b"]), vec![]]);
    assert_eq!(pairs(&d.associate_files), vec![("/Applications/Foo.app", "Foo")]);
    d.find_associate_files(&vec![]);
    assert_eq!(d.associate_files.len(), 1);
}

#[test]
fn every_entry_but_last_matches_and_last_is_bundle() {
    let visited = vec![s(&["/x/foo", "/x/y", "/x/COM.ACME.FOO.plist", "/x/acme"]), s(&["/z/FOO", "/z/q"])];
    let mut d = data();
    d.find_associate_files(&visited);
    let n = d.associate_files.len();
    for (p, label) in &d.associate_files[..n - 1] {
        assert!(d.app.associate_path_matches(p));
        assert_eq!(p.rsplit('/').next().unwrap(), label);
    }
    assert_eq!(d.associate_files[n - 1], ("/Applications/Foo.app".to_string(), "Foo".to_string()));
}

#[test]
fn repeated_matches_across_roots_appear_once() {
    let visited = vec![s(&["/r/Foo", "/r/Foo"]), s(&["/r/Foo", "/s/acme"]), s(&["/s/acme"])];
    let mut d = data();
    d.find_associate_files(&visited);
    let paths: Vec<&str> = d.associate_files.iter().map(|(p, _)| p.as_str()).collect();
    assert_eq!(paths, vec!["/r/Foo", "/s/acme", "/Applications/Foo.app"]);
    let unique: HashSet<&&str> = paths.iter().collect();
    assert_eq!(unique.len(), paths.len());
}

#[test]
fn scanning_in_another_order_gives_same_set() {
    let a = vec![s(&["/r/Foo", "/r/x", "/s/acme"]), s(&["/t/com.acme.Foo.log"])];
    let b = vec![s(&["/t/com.acme.Foo.log", "/s/acme"]), s(&["/r/x"]), s(&["/r/Foo", "/s/acme"])];
    let mut d1 = data();
    let mut d2 = data();
    d1.find_associate_files(&a);
    d2.find_associate_files(&b);
    let s1: HashSet<(String, String)> = d1.associate_files.into_iter().collect();
    let s2: HashSet<(String, String)> = d2.associate_files.into_iter().collect();
    assert_eq!(s1, s2);
    let mut d3 = data();
    d3.find_associate_files(&a);
    let s3: HashSet<(String, String)> = d3.associate_files.into_iter().collect();
    assert_eq!(s1, s3);
}

#[test]
fn dedup_keeps_first_occurrence() {
    let v = vec![
        ("/a".to_string(), "1".to_string()),
        ("/b".to_string(), "2".to_string()),
        ("/a".to_string(), "3".to_string()),
    ];
    let d = dedup_paths(&v);
    assert_eq!(pairs(&d), vec![("/a", "1"), ("/b", "2")]);
}

#[test]
fn flatten_keeps_root_order() {
    let f = flatten_paths(&vec![s(&["a", "b"]), vec![], s(&["c"])]);
    assert_eq!(f, s(&["a", "b", "c"]));
}

#[test]
fn progress_every_batch() {
    assert_eq!(PROGRESS_BATCH, 256);
    assert_eq!(WALK_DEPTH, 3);
    assert!(!progress_due(1));
    assert!(!progress_due(255));
    assert!(progress_due(256));
    assert!(!progress_due(257));
    assert!(progress_due(512));
}

#[test]
fn receipts_keep_matching_bom_files_only() {
    let listings = vec![
        s(&[
            "/var/db/receipts/com.acme.Foo.bom",
            "/var/db/receipts/com.acme.Foo.plist",
            "/var/db/receipts/com.other.Bar.bom",
            "/var/db/receipts/org.acme.helper.bom",
            "/var/db/receipts/FooExec-installer.BOM",
        ]),
        vec![],
        s(&["/x/receipts/foo.bom", "/x/receipts/readme.txt"]),
    ];
    let log = LogReceipt::find_bom_files(&foo_app(), &listings);
    assert_eq!(
        log.bom_file,
        s(&["/var/db/receipts/com.acme.Foo.bom", "/var/db/receipts/org.acme.helper.bom", "/x/receipts/foo.bom"])
    );
}

#[test]
fn receipts_none_when_nothing_listed() {
    assert!(LogReceipt::find_bom_files(&foo_app(), &vec![]).bom_file.is_empty());
    assert!(LogReceipt::new().bom_file.is_empty());
}

#[test]
fn export_target_uses_stem_and_log_suffix() {
    assert_eq!(LogReceipt::export_target("/var/db/receipts/com.acme.Foo.bom", "/out"), Some("/out/com.acme.Foo.log".to_string()));
    assert_eq!(LogReceipt::export_target("/r/noext", "/out/"), Some("/out/noext.log".to_string()));
    assert_eq!(LogReceipt::export_target("/", "/out"), None);
}

#[test]
fn locations_catalog_for_home() {
    let loc = LocationsScan::new(Some("/Users/me"), Some("/var/folders/C".to_string()), None);
    assert_eq!(loc.paths.len(), 15 + 18 + 1);
    assert_eq!(loc.paths[0], "/Users/me/Library");
    assert_eq!(loc.paths[5], "/Users/me/Library/Caches");
    assert_eq!(loc.paths[14], "/Users/me/Library/WebKit");
    assert_eq!(loc.paths[15], "/Library");
    assert_eq!(loc.paths[26], "/private/var/db/receipts");
    assert_eq!(loc.paths[32], "/usr/local/var");
    assert_eq!(loc.paths[33], "/var/folders/C");
}

#[test]
fn locations_catalog_without_home() {
    let loc = LocationsScan::new(None, Some("/c".to_string()), Some("/t".to_string()));
    assert_eq!(loc.paths[0], "/Users/Unknown/Library");
    assert_eq!(loc.paths.len(), 35);
    assert_eq!(loc.paths[34], "/t");
}

#[test]
fn receipts_dirs_are_named_receipts() {
    let loc = LocationsScan::new(Some("/Users/me"), None, None);
    assert_eq!(loc.receipts_dirs(), s(&["/private/var/db/receipts"]));
    let custom = LocationsScan { paths: s(&["/a/receipts", "/b/receipts.old", "/c/receipts/", "/d"]) };
    assert_eq!(custom.receipts_dirs(), s(&["/a/receipts", "/c/receipts/"]));
}

#[test]
fn session_scan_records_receipts_and_associations() {
    let mut c = Cleaner::new();
    c.app_data.app = foo_app();
    c.scan_app_data(&vec![s(&["/r/com.acme.Foo.bom"])], &vec![s(&["/L/Foo"])]);
    assert_eq!(c.app_data.log.bom_file, s(&["/r/com.acme.Foo.bom"]));
    assert_eq!(pairs(&c.app_data.associate_files), vec![("/L/Foo", "Foo"), ("/Applications/Foo.app", "Foo")]);
    assert_eq!(c.removal_paths(), s(&["/L/Foo", "/Applications/Foo.app"]));
    assert_eq!(c.bom_log_folder("/Users/me/Desktop"), "/Users/me/Desktop/Foo_bom_log");
    let listed = c.app_data.all_found_entries_enumerate();
    assert_eq!(listed[1], (1, ("/Applications/Foo.app".to_string(), "Foo".to_string())));
    c.reset();
    assert!(c.app_data.associate_files.is_empty() && c.app_data.app.name.is_empty());
}

#[test]
fn bundle_path_found_by_the_scan_is_listed_once() {
    let mut d = AppData::empty();
    d.app = AppInfo {
        path: "/L/Apps/com.acme.Foo.app".to_string(),
        name: "Foo".to_string(),
        bundle_id: "com.acme.Foo".to_string(),
        bundle_name: "Foo".to_string(),
        organization: "acme".to_string(),
    };
    d.find_associate_files(&vec![s(&["/L/Apps/com.acme.Foo.app", "/L/Logs/Foo"])]);
    assert_eq!(
        pairs(&d.associate_files),
        vec![("/L/Logs/Foo", "Foo"), ("/L/Apps/com.acme.Foo.app", "Foo")]
    );
}
