use cleaner::removal::{failure_summary, removal_failures, removal_reason, PRIVACY_DENIED_REASON};
use cleaner::{AppData, RemovalFailure};
use std::collections::HashSet;

fn denied() -> RemovalFailure {
    RemovalFailure::Error { domain: "NSCocoaErrorDomain".to_string(), code: 513 }
}

#[test]
fn one_protected_path_of_three_is_the_only_failure() {
    let attempts = vec![
        ("/a".to_string(), Ok(())),
        ("/b".to_string(), Err(denied())),
        ("/c".to_string(), Ok(())),
    ];
    let failed = removal_failures(&attempts);
    assert_eq!(failed, vec![("/b".to_string(), PRIVACY_DENIED_REASON.to_string())]);
    let input: HashSet<&str> = ["/a", "/b", "/c"].into_iter().collect();
    let failed_set: HashSet<&str> = failed.iter().map(|(p, _)| p.as_str()).collect();
    let succeeded: HashSet<&str> = input.difference(&failed_set).cloned().collect();
    assert_eq!(succeeded, ["/a", "/c"].into_iter().collect());
    assert!(succeeded.is_disjoint(&failed_set));
    assert_eq!(succeeded.union(&failed_set).cloned().collect::<HashSet<&str>>(), input);
}

#[test]
fn empty_request_has_no_failures() {
    assert!(removal_failures(&vec![]).is_empty());
}

#[test]
fn all_failures_are_reported_in_order() {
    let attempts = vec![
        ("/x".to_string(), Err(RemovalFailure::Unknown)),
        ("/y".to_string(), Err(RemovalFailure::Error { domain: "NSPOSIXErrorDomain".to_string(), code: 2 })),
    ];
    let failed = removal_failures(&attempts);
    assert_eq!(
        failed,
        vec![
            ("/x".to_string(), "unknown reason".to_string()),
            ("/y".to_string(), "Failed with NSPOSIXErrorDomain (2)".to_string()),
        ]
    );
}

#[test]
fn reasons_are_classified() {
    assert_eq!(removal_reason(&denied()), "Permission not allowed by macOS privacy protection (TCC)");
    assert_eq!(
        removal_reason(&RemovalFailure::Error { domain: "NSCocoaErrorDomain".to_string(), code: 4 }),
        "Failed with NSCocoaErrorDomain (4)"
    );
    assert_eq!(
        removal_reason(&RemovalFailure::Error { domain: "Other".to_string(), code: 513 }),
        "Failed with Other (513)"
    );
    assert_eq!(
        removal_reason(&RemovalFailure::Error { domain: "D".to_string(), code: -1 }),
        "Failed with D (-1)"
    );
    assert_eq!(removal_reason(&RemovalFailure::Unknown), "unknown reason");
}

#[test]
fn failures_are_grouped_by_reason() {
    let failed = vec![
        ("/a".to_string(), "r1".to_string()),
        ("/b".to_string(), "r2".to_string()),
        ("/c".to_string(), "r1".to_string()),
        ("/d".to_string(), "r1".to_string()),
    ];
    assert_eq!(failure_summary(&failed), vec![("r1".to_string(), 3), ("r2".to_string(), 1)]);
    assert!(failure_summary(&vec![]).is_empty());
}

#[test]
fn failed_paths_become_the_retry_list() {
    let mut d = AppData::empty();
    d.associate_files = vec![("/old".to_string(), "old".to_string())];
    d.keep_failed(&vec![
        ("/L/Caches/com.acme.Foo".to_string(), "denied".to_string()),
        ("/".to_string(), "busy".to_string()),
    ]);
    assert_eq!(
        d.associate_files,
        vec![
            ("/L/Caches/com.acme.Foo".to_string(), "com.acme.Foo".to_string()),
            ("/".to_string(), "/".to_string()),
        ]
    );
}
