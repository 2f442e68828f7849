use cleaner::{AppInfo, AppProcess, RunningProcess};

fn app(org: &str) -> AppInfo {
    AppInfo {
        path: "/Applications/Foo.app".to_string(),
        name: "Foo".to_string(),
        bundle_id: format!("com.{}.Foo", org),
        bundle_name: "Foo".to_string(),
        organization: org.to_string(),
    }
}

fn proc(pid: i32, args: &[&str], name: &str) -> RunningProcess {
    RunningProcess { pid, args: args.iter().map(|s| s.to_string()).collect(), name: name.to_string() }
}

#[test]
fn processes_match_on_command_line_or_name() {
    let snapshot = vec![
        proc(1, &["/sbin/launchd"], "launchd"),
        proc(2, &["/Applications/Foo.app/Contents/MacOS/Foo", "--flag"], "Foo"),
        proc(3, &["/usr/libexec/xpc", "com.acme.Foo.agent"], "xpcproxy"),
        proc(4, &["/bin/zsh"], "zsh"),
        proc(5, &[], "Foo Helper (Renderer)"),
        proc(6, &["/opt/acme/daemon"], "daemon"),
    ];
    let found = AppProcess::find_app_processes(&app("acme"), &snapshot);
    let pids: Vec<i32> = found.iter().map(|p| p.pid).collect();
    assert_eq!(pids, vec![2, 3, 5, 6]);
    assert_eq!(found[0].command, "/Applications/Foo.app/Contents/MacOS/Foo --flag");
    assert_eq!(found[0].process_name, "Foo");
    assert_eq!(found[2].command, "");
}

#[test]
fn matching_is_case_sensitive_substring() {
    let snapshot = vec![proc(7, &["/bin/foo"], "foo")];
    assert!(AppProcess::find_app_processes(&app("acme"), &snapshot).is_empty());
}

#[test]
fn empty_organization_matches_every_process() {
    let snapshot = vec![proc(1, &["/sbin/launchd"], "launchd"), proc(2, &["/bin/zsh"], "zsh")];
    assert_eq!(AppProcess::find_app_processes(&app(""), &snapshot).len(), 2);
}

#[test]
fn pid_list_joins_pids() {
    let ps = vec![
        AppProcess::new(12, "a".to_string(), "a".to_string()),
        AppProcess::new(345, "b".to_string(), "b".to_string()),
        AppProcess::new(-1, "c".to_string(), "c".to_string()),
    ];
    assert_eq!(AppProcess::pid_list(&ps), Some("12 345 -1".to_string()));
    assert_eq!(AppProcess::pid_list(&vec![]), None);
}
