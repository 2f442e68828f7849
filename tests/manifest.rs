use cleaner::{AppData, AppInfo, Cleaner, ManifestError, RunningProcess};

fn plist(entries: &[(&str, &str)]) -> Vec<u8> {
    let mut body = String::new();
    for (k, v) in entries {
        body.push_str(&format!("<key>{}</key><string>{}</string>", k, v));
    }
    format!(
        "<?xml version=\"1.0\" encoding=\"UTF-8\"?>\n<plist version=\"1.0\"><dict>{}</dict></plist>",
        body
    )
    .into_bytes()
}

#[test]
fn manifest_reads_identity_fields() {
    let doc = plist(&[
        ("CFBundleIdentifier", "com.acme.Foo"),
        ("CFBundleDisplayName", "Foo Pro"),
        ("CFBundleExecutable", "FooExec"),
    ]);
    let info = AppInfo::from_path("/Applications/Foo.app", Some(&doc)).unwrap();
    assert_eq!(info.path, "/Applications/Foo.app");
    assert_eq!(info.name, "Foo Pro");
    assert_eq!(info.bundle_id, "com.acme.Foo");
    assert_eq!(info.bundle_name, "FooExec");
    assert_eq!(info.organization, "acme");
}

#[test]
fn manifest_name_falls_back_to_file_stem() {
    let doc = plist(&[("CFBundleIdentifier", "com.acme.Foo"), ("CFBundleExecutable", "Foo")]);
    let info = AppInfo::from_path("/Applications/Foo Bar.app", Some(&doc)).unwrap();
    assert_eq!(info.name, "Foo Bar");
}

#[test]
fn manifest_without_metadata_file() {
    assert_eq!(AppInfo::from_path("/Applications/Foo.app", None).unwrap_err(), ManifestError::MissingMetadata);
}

#[test]
fn manifest_with_broken_metadata() {
    let doc = b"<?xml version=\"1.0\"?><plist version=\"1.0\"><dict><key>A</key>".to_vec();
    assert_eq!(AppInfo::from_path("/Applications/Foo.app", Some(&doc)).unwrap_err(), ManifestError::UnreadableMetadata);
}

#[test]
fn manifest_without_bundle_id() {
    let doc = plist(&[("CFBundleExecutable", "Foo")]);
    assert_eq!(AppInfo::from_path("/Applications/Foo.app", Some(&doc)).unwrap_err(), ManifestError::MissingIdentifier);
}

#[test]
fn manifest_without_executable() {
    let doc = plist(&[("CFBundleIdentifier", "com.acme.Foo")]);
    assert_eq!(AppInfo::from_path("/Applications/Foo.app", Some(&doc)).unwrap_err(), ManifestError::MissingIdentifier);
}

#[test]
fn manifest_without_any_name() {
    let doc = plist(&[("CFBundleIdentifier", "com.acme.Foo"), ("CFBundleExecutable", "Foo")]);
    assert_eq!(AppInfo::from_path("/", Some(&doc)).unwrap_err(), ManifestError::MissingName);
}

#[test]
fn manifest_without_organization() {
    let doc = plist(&[("CFBundleIdentifier", "foo"), ("CFBundleExecutable", "Foo")]);
    let info = AppInfo::from_path("/Applications/Foo.app", Some(&doc)).unwrap();
    assert_eq!(info.organization, "");
}

#[test]
fn default_identity_is_empty() {
    let info = AppInfo::default();
    assert!(info.path.is_empty() && info.name.is_empty() && info.bundle_id.is_empty());
    assert!(info.bundle_name.is_empty() && info.organization.is_empty());
}

#[test]
fn session_starts_with_matching_processes() {
    let doc = plist(&[("CFBundleIdentifier", "com.acme.Foo"), ("CFBundleExecutable", "Foo")]);
    let snapshot = vec![
        RunningProcess { pid: 10, args: vec!["/Applications/Foo.app/Contents/MacOS/Foo".to_string()], name: "Foo".to_string() },
        RunningProcess { pid: 11, args: vec!["/usr/bin/bash".to_string()], name: "bash".to_string() },
    ];
    let cleaner = Cleaner::new_app("/Applications/Foo.app", Some(&doc), &snapshot).unwrap();
    assert_eq!(cleaner.app_data.app_process.len(), 1);
    assert_eq!(cleaner.app_data.app_process[0].pid, 10);
    assert!(cleaner.needs_confirmation());
    assert_eq!(cleaner.confirm_and_kill_process(true), Some("10".to_string()));
    assert_eq!(cleaner.confirm_and_kill_process(false), None);
    assert!(cleaner.app_data.associate_files.is_empty());
}

#[test]
fn session_fails_on_missing_metadata() {
    assert!(matches!(Cleaner::new_app("/x/Foo.app", None, &vec![]), Err(ManifestError::MissingMetadata)));
    assert!(matches!(AppData::new("/x/Foo.app", None), Err(ManifestError::MissingMetadata)));
}
