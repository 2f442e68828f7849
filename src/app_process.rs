//! Running processes that belong to a bundle, judged from a snapshot of the
//! process table.

use crate::app_info::AppInfo;
use crate::text::{decimal, decimal_of, join_strings, joined, seq_contains, str_contains};
use vstd::prelude::*;

verus! {

/// One entry of the process table: its id, its command-line arguments and its name.
#[derive(Debug, Clone)]
pub struct RunningProcess {
    pub pid: i32,
    pub args: Vec<String>,
    pub name: String,
}

/// A running process found to belong to the bundle.
#[derive(Debug, Clone)]
pub struct AppProcess {
    pub pid: i32,
    /// The command line, its arguments joined by single spaces.
    pub command: String,
    pub process_name: String,
}

impl View for AppProcess {
    type V = (i32, Seq<char>, Seq<char>);

    open spec fn view(&self) -> (i32, Seq<char>, Seq<char>) {
        (self.pid, self.command@, self.process_name@)
    }
}

/// The arguments of a process joined by single spaces.
pub open spec fn command_line_of(p: RunningProcess) -> Seq<char> {
    joined(p.args.deep_view(), " "@)
}

/// `pattern` occurs in the command line or in the process name.
pub open spec fn pattern_hit(pattern: Seq<char>, command: Seq<char>, name: Seq<char>) -> bool {
    seq_contains(command, pattern) || seq_contains(name, pattern)
}

/// The process with this command line and name belongs to `app`: the executable
/// name, the bundle id, the organization or "<executable> Helper" occurs in either.
pub open spec fn process_belongs(app: AppInfo, command: Seq<char>, name: Seq<char>) -> bool {
    ||| pattern_hit(app.bundle_name@, command, name)
    ||| pattern_hit(app.bundle_id@, command, name)
    ||| pattern_hit(app.organization@, command, name)
    ||| pattern_hit(app.bundle_name@ + " Helper"@, command, name)
}

/// The processes of `snapshot` that belong to `app`, in snapshot order.
pub open spec fn matching_processes(app: AppInfo, snapshot: Seq<RunningProcess>) -> Seq<
    (i32, Seq<char>, Seq<char>),
>
    decreases snapshot.len(),
{
    if snapshot.len() == 0 {
        Seq::empty()
    } else {
        let found = matching_processes(app, snapshot.drop_last());
        let p = snapshot.last();
        if process_belongs(app, command_line_of(p), p.name@) {
            found.push((p.pid, command_line_of(p), p.name@))
        } else {
            found
        }
    }
}

/// The pids of the processes in decimal, separated by single spaces.
pub open spec fn pid_list_of(processes: Seq<AppProcess>) -> Seq<char> {
    joined(processes.map_values(|p: AppProcess| decimal_of(p.pid as int)), " "@)
}

fn hit(pattern: &str, command: &str, name: &str) -> (r: bool)
    ensures
        r == pattern_hit(pattern@, command@, name@),
{
    str_contains(command, pattern) || str_contains(name, pattern)
}

impl AppProcess {
    pub fn new(pid: i32, command: String, process_name: String) -> (r: Self)
        ensures
            r.pid == pid,
            r.command == command,
            r.process_name == process_name,
    {
        AppProcess { pid, command, process_name }
    }

    /// The processes of `snapshot` that belong to `app`. A process belongs when the
    /// executable name, the bundle id, the organization or "<executable> Helper"
    /// occurs in its joined command line or in its name.
    pub fn find_app_processes(app: &AppInfo, snapshot: &Vec<RunningProcess>) -> (r: Vec<AppProcess>)
        ensures
            r@.map_values(|p: AppProcess| p@) == matching_processes(*app, snapshot@),
    {
        let mut helper = app.bundle_name.clone();
        helper.append(" Helper");
        let mut found: Vec<AppProcess> = Vec::new();
        let mut i: usize = 0;
        while i < snapshot.len()
            invariant
                i <= snapshot@.len(),
                helper@ == app.bundle_name@ + " Helper"@,
                found@.map_values(|p: AppProcess| p@) == matching_processes(
                    *app,
                    snapshot@.subrange(0, i as int),
                ),
            decreases snapshot@.len() - i,
        {
            let p = &snapshot[i];
            let command = join_strings(&p.args, " ");
            let name = p.name.as_str();
            let belongs = hit(app.bundle_name.as_str(), command.as_str(), name) || hit(
                app.bundle_id.as_str(),
                command.as_str(),
                name,
            ) || hit(app.organization.as_str(), command.as_str(), name) || hit(
                helper.as_str(),
                command.as_str(),
                name,
            );
            let ghost before = found@;
            if belongs {
                found.push(AppProcess::new(p.pid, command, p.name.clone()));
            }
            proof {
                let prefix = snapshot@.subrange(0, i + 1);
                assert(prefix.drop_last() =~= snapshot@.subrange(0, i as int));
                assert(found@.map_values(|p: AppProcess| p@) =~= matching_processes(*app, prefix))
                    by {
                    if belongs {
                        assert(found@ =~= before.push(found@.last()));
                        assert(before.push(found@.last()).map_values(|p: AppProcess| p@)
                            =~= before.map_values(|p: AppProcess| p@).push(found@.last()@));
                    }
                }
            }
            i = i + 1;
        }
        assert(snapshot@.subrange(0, i as int) =~= snapshot@);
        found
    }

    /// The pids of `processes` in decimal, separated by single spaces, for a
    /// termination request; `None` when there is nothing to terminate.
    pub fn pid_list(processes: &Vec<AppProcess>) -> (r: Option<String>)
        ensures
            processes@.len() == 0 <==> r is None,
            r matches Some(s) ==> s@ == pid_list_of(processes@),
    {
        if processes.len() == 0 {
            return None;
        }
        let mut parts: Vec<String> = Vec::new();
        let mut i: usize = 0;
        while i < processes.len()
            invariant
                i <= processes@.len(),
                parts@.len() == i,
                parts.deep_view() == processes@.subrange(0, i as int).map_values(
                    |p: AppProcess| decimal_of(p.pid as int),
                ),
            decreases processes@.len() - i,
        {
            let ghost before = parts.deep_view();
            let ghost before_parts = parts@;
            let d = decimal(processes[i].pid as i64);
            parts.push(d);
            i = i + 1;
            proof {
                let want = processes@.subrange(0, i as int).map_values(
                    |p: AppProcess| decimal_of(p.pid as int),
                );
                assert(parts@ == before_parts.push(d));
                assert(parts.deep_view().len() == i);
                assert forall|k: int| 0 <= k < i implies parts.deep_view()[k] == want[k] by {
                    if k < i - 1 {
                        assert(parts.deep_view()[k] == before[k]);
                    }
                }
                assert(parts.deep_view() =~= want);
            }
        }
        assert(processes@.subrange(0, i as int) =~= processes@);
        Some(join_strings(&parts, " "))
    }
}

} // verus!
