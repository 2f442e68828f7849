//! The state gathered for one bundle: its identity, its running processes, its
//! receipts and the paths associated with it, and the scan that finds those paths.

use crate::app_info::{bytes_of, manifest_failure, AppInfo, ManifestError};
use crate::app_process::{matching_processes, AppProcess, RunningProcess};
use crate::log_receipt::{receipts_of, LogReceipt};
use crate::paths::{file_name_of, flatten_paths, label, label_of};
use vstd::prelude::*;

verus! {

broadcast use vstd::seq_lib::group_filter_ensures;

/// How many levels below each root a scan descends.
pub const WALK_DEPTH: usize = 3;

/// Progress is reported once for every this many visited entries.
pub const PROGRESS_BATCH: usize = 256;

/// The entries, each a path and its label, for the visited paths that belong to
/// `app`, in visiting order.
pub open spec fn matched_entries(app: AppInfo, paths: Seq<Seq<char>>) -> Seq<
    (Seq<char>, Seq<char>),
> {
    paths.filter(|p: Seq<char>| app.associated(p)).map_values(
        |p: Seq<char>| (p, label_of(p)),
    )
}

/// Some entry of `s` has path `p`.
pub open spec fn has_path(s: Seq<(Seq<char>, Seq<char>)>, p: Seq<char>) -> bool {
    exists|k: int| 0 <= k < s.len() && (#[trigger] s[k]).0 == p
}

/// `s` without the entries whose path occurred earlier: the first occurrence wins.
pub open spec fn dedup_by_path(s: Seq<(Seq<char>, Seq<char>)>) -> Seq<(Seq<char>, Seq<char>)>
    decreases s.len(),
{
    if s.len() == 0 {
        s
    } else {
        let kept = dedup_by_path(s.drop_last());
        if has_path(kept, s.last().0) {
            kept
        } else {
            kept.push(s.last())
        }
    }
}

/// `s` without the entries at path `p`.
pub open spec fn without_path(s: Seq<(Seq<char>, Seq<char>)>, p: Seq<char>) -> Seq<
    (Seq<char>, Seq<char>),
> {
    s.filter(elsewhere_than(p))
}

/// The entry's path is not `p`.
pub open spec fn elsewhere_than(p: Seq<char>) -> spec_fn((Seq<char>, Seq<char>)) -> bool {
    |e: (Seq<char>, Seq<char>)| e.0 != p
}

/// The association list of a scan that visited, root by root, the paths in
/// `roots`: the matching entries without repeated paths and without the bundle's
/// own path, then the bundle itself.
pub open spec fn association_list(app: AppInfo, roots: Seq<Seq<Seq<char>>>) -> Seq<
    (Seq<char>, Seq<char>),
> {
    without_path(dedup_by_path(matched_entries(app, roots.flatten())), app.path@).push(
        (app.path@, app.name@),
    )
}

/// Whether the visit count `visited` calls for a progress report.
pub fn progress_due(visited: usize) -> (r: bool)
    ensures
        r == (visited % PROGRESS_BATCH == 0),
{
    visited % PROGRESS_BATCH == 0
}

fn contains_path(list: &Vec<(String, String)>, path: &String) -> (r: bool)
    ensures
        r == has_path(list.deep_view(), path@),
{
    let mut i: usize = 0;
    while i < list.len()
        invariant
            i <= list@.len(),
            forall|k: int| 0 <= k < i ==> (#[trigger] list.deep_view()[k]).0 != path@,
        decreases list@.len() - i,
    {
        if list[i].0 == *path {
            assert(list.deep_view()[i as int].0 == path@);
            return true;
        }
        i = i + 1;
    }
    false
}

/// The entries without repeated paths, the first occurrence of each path kept.
pub fn dedup_paths(entries: &Vec<(String, String)>) -> (r: Vec<(String, String)>)
    ensures
        r.deep_view() == dedup_by_path(entries.deep_view()),
{
    let mut out: Vec<(String, String)> = Vec::new();
    let mut i: usize = 0;
    while i < entries.len()
        invariant
            i <= entries@.len(),
            out.deep_view() == dedup_by_path(entries.deep_view().subrange(0, i as int)),
        decreases entries@.len() - i,
    {
        let ghost before = out.deep_view();
        let seen = contains_path(&out, &entries[i].0);
        if !seen {
            out.push((entries[i].0.clone(), entries[i].1.clone()));
        }
        proof {
            let prefix = entries.deep_view().subrange(0, i + 1);
            assert(prefix.drop_last() =~= entries.deep_view().subrange(0, i as int));
            if !seen {
                assert(out.deep_view() =~= before.push(prefix.last()));
            }
        }
        i = i + 1;
    }
    assert(entries.deep_view().subrange(0, i as int) =~= entries.deep_view());
    out
}

/// The entries whose path is not `path`, in order.
pub fn drop_path(entries: &Vec<(String, String)>, path: &String) -> (r: Vec<(String, String)>)
    ensures
        r.deep_view() == without_path(entries.deep_view(), path@),
{
    let mut out: Vec<(String, String)> = Vec::new();
    let mut i: usize = 0;
    while i < entries.len()
        invariant
            i <= entries@.len(),
            out.deep_view() == without_path(entries.deep_view().subrange(0, i as int), path@),
        decreases entries@.len() - i,
    {
        let ghost before = out.deep_view();
        let keep = !(entries[i].0 == *path);
        if keep {
            out.push((entries[i].0.clone(), entries[i].1.clone()));
        }
        proof {
            reveal(Seq::filter);
            let prefix = entries.deep_view().subrange(0, i + 1);
            assert(prefix.drop_last() =~= entries.deep_view().subrange(0, i as int));
            assert(prefix.last() == entries.deep_view()[i as int]);
            if keep {
                assert(out.deep_view() =~= before.push(prefix.last()));
            } else {
                assert(out.deep_view() =~= before);
            }
        }
        i = i + 1;
    }
    assert(entries.deep_view().subrange(0, i as int) =~= entries.deep_view());
    out
}

proof fn lemma_without_path_member(
    s: Seq<(Seq<char>, Seq<char>)>,
    p: Seq<char>,
    x: (Seq<char>, Seq<char>),
)
    ensures
        without_path(s, p).contains(x) <==> (s.contains(x) && x.0 != p),
{
    let pred = elsewhere_than(p);
    let w = without_path(s, p);
    if w.contains(x) {
        let k = choose|k: int| 0 <= k < w.len() && w[k] == x;
        s.lemma_filter_pred(pred, k);
        s.lemma_filter_contains_rev(pred, x);
    }
    if s.contains(x) && x.0 != p {
        let k = choose|k: int| 0 <= k < s.len() && s[k] == x;
        s.lemma_filter_contains(pred, k);
    }
}

proof fn lemma_without_path_distinct(s: Seq<(Seq<char>, Seq<char>)>, p: Seq<char>)
    requires
        forall|i: int, j: int| 0 <= i < j < s.len() ==> (#[trigger] s[i]).0 != (#[trigger] s[j]).0,
    ensures
        forall|i: int, j: int|
            0 <= i < j < without_path(s, p).len() ==> (#[trigger] without_path(s, p)[i]).0 != (
            #[trigger] without_path(s, p)[j]).0,
    decreases s.len(),
{
    reveal(Seq::filter);
    if s.len() > 0 {
        let rest = s.drop_last();
        assert forall|i: int, j: int| 0 <= i < j < rest.len() implies (#[trigger] rest[i]).0 != (
        #[trigger] rest[j]).0 by {
            assert(rest[i] == s[i] && rest[j] == s[j]);
        }
        lemma_without_path_distinct(rest, p);
        let w = without_path(s, p);
        let wr = without_path(rest, p);
        if s.last().0 != p {
            assert(w == wr.push(s.last()));
            assert forall|i: int, j: int| 0 <= i < j < w.len() implies (#[trigger] w[i]).0 != (
            #[trigger] w[j]).0 by {
                if j == w.len() - 1 {
                    assert(w[i] == wr[i]);
                    assert(wr.contains(wr[i]));
                    lemma_without_path_member(rest, p, wr[i]);
                    let k = choose|k: int| 0 <= k < rest.len() && rest[k] == wr[i];
                    assert(s[k] == rest[k]);
                    assert(s[s.len() - 1] == s.last());
                } else {
                    assert(w[i] == wr[i] && w[j] == wr[j]);
                }
            }
        } else {
            assert(w == wr);
        }
    }
}

proof fn lemma_dedup_subset(s: Seq<(Seq<char>, Seq<char>)>, x: (Seq<char>, Seq<char>))
    requires
        dedup_by_path(s).contains(x),
    ensures
        s.contains(x),
    decreases s.len(),
{
    if s.len() > 0 {
        let kept = dedup_by_path(s.drop_last());
        if kept.contains(x) {
            lemma_dedup_subset(s.drop_last(), x);
            let k = choose|k: int| 0 <= k < s.drop_last().len() && s.drop_last()[k] == x;
            assert(s[k] == x);
        } else {
            assert(x == s.last());
            assert(s[s.len() - 1] == x);
        }
    }
}

proof fn lemma_dedup_has_path(s: Seq<(Seq<char>, Seq<char>)>, p: Seq<char>)
    ensures
        has_path(dedup_by_path(s), p) <==> has_path(s, p),
    decreases s.len(),
{
    if s.len() > 0 {
        let rest = s.drop_last();
        let kept = dedup_by_path(rest);
        lemma_dedup_has_path(rest, p);
        if has_path(s, p) {
            let k = choose|k: int| 0 <= k < s.len() && (#[trigger] s[k]).0 == p;
            if k < s.len() - 1 {
                assert(rest[k] == s[k]);
                assert(has_path(rest, p));
                let j = choose|j: int| 0 <= j < kept.len() && (#[trigger] kept[j]).0 == p;
                assert(dedup_by_path(s)[j] == kept[j]);
            } else if !has_path(kept, s.last().0) {
                assert(dedup_by_path(s)[kept.len() as int] == s.last());
            }
        }
        if has_path(dedup_by_path(s), p) {
            let k = choose|k: int|
                0 <= k < dedup_by_path(s).len() && (#[trigger] dedup_by_path(s)[k]).0 == p;
            if k < kept.len() {
                assert(kept[k] == dedup_by_path(s)[k]);
                let j = choose|j: int| 0 <= j < rest.len() && (#[trigger] rest[j]).0 == p;
                assert(s[j] == rest[j]);
            } else {
                assert(s[s.len() - 1].0 == p);
            }
        }
    }
}

proof fn lemma_dedup_distinct(s: Seq<(Seq<char>, Seq<char>)>)
    ensures
        forall|i: int, j: int|
            0 <= i < j < dedup_by_path(s).len() ==> (#[trigger] dedup_by_path(s)[i]).0
                != (#[trigger] dedup_by_path(s)[j]).0,
    decreases s.len(),
{
    if s.len() > 0 {
        let kept = dedup_by_path(s.drop_last());
        lemma_dedup_distinct(s.drop_last());
        if !has_path(kept, s.last().0) {
            let d = dedup_by_path(s);
            assert forall|i: int, j: int| 0 <= i < j < d.len() implies (#[trigger] d[i]).0 != (
            #[trigger] d[j]).0 by {
                if j == d.len() - 1 {
                    assert(d[i] == kept[i]);
                    if d[i].0 == d[j].0 {
                        assert(has_path(kept, s.last().0));
                    }
                } else {
                    assert(d[i] == kept[i] && d[j] == kept[j]);
                }
            }
        }
    }
}

proof fn lemma_matched_entry(app: AppInfo, paths: Seq<Seq<char>>, x: (Seq<char>, Seq<char>))
    ensures
        matched_entries(app, paths).contains(x) <==> {
            &&& paths.contains(x.0)
            &&& app.associated(x.0)
            &&& x.1 == label_of(x.0)
        },
{
    let pred = |p: Seq<char>| app.associated(p);
    let f = paths.filter(pred);
    let m = matched_entries(app, paths);
    if m.contains(x) {
        let k = choose|k: int| 0 <= k < m.len() && m[k] == x;
        assert(pred(f[k]));
        assert(f.contains(f[k]));
        paths.lemma_filter_contains_rev(pred, f[k]);
    }
    if paths.contains(x.0) && app.associated(x.0) && x.1 == label_of(x.0) {
        let i = choose|i: int| 0 <= i < paths.len() && paths[i] == x.0;
        assert(f.contains(paths[i]));
        let k = choose|k: int| 0 <= k < f.len() && f[k] == x.0;
        assert(m[k] == x);
    }
}

/// Every entry of the association list but the last satisfies the bundle's
/// matching rule on its final path component and is labelled with that component;
/// the last entry is the bundle itself.
pub proof fn lemma_association_entries_match(app: AppInfo, roots: Seq<Seq<Seq<char>>>)
    ensures
        association_list(app, roots).len() >= 1,
        association_list(app, roots).last() == (app.path@, app.name@),
        forall|i: int|
            0 <= i < association_list(app, roots).len() - 1 ==> {
                &&& app.associated((#[trigger] association_list(app, roots)[i]).0)
                &&& file_name_of(association_list(app, roots)[i].0) == Some(
                    association_list(app, roots)[i].1,
                )
            },
{
    let m = matched_entries(app, roots.flatten());
    let d = dedup_by_path(m);
    let w = without_path(d, app.path@);
    let r = association_list(app, roots);
    assert forall|i: int| 0 <= i < r.len() - 1 implies {
        &&& app.associated((#[trigger] r[i]).0)
        &&& file_name_of(r[i].0) == Some(r[i].1)
    } by {
        assert(r[i] == w[i]);
        assert(w.contains(w[i]));
        lemma_without_path_member(d, app.path@, w[i]);
        lemma_dedup_subset(m, w[i]);
        lemma_matched_entry(app, roots.flatten(), w[i]);
    }
}

/// The association list holds no path twice, however the visited paths were
/// spread over roots and whichever of them matched, the bundle's own path included.
pub proof fn lemma_association_paths_unique(app: AppInfo, roots: Seq<Seq<Seq<char>>>)
    ensures
        forall|i: int, j: int|
            0 <= i < j < association_list(app, roots).len() ==> (#[trigger] association_list(
                app,
                roots,
            )[i]).0 != (#[trigger] association_list(app, roots)[j]).0,
{
    let m = matched_entries(app, roots.flatten());
    let d = dedup_by_path(m);
    let w = without_path(d, app.path@);
    let r = association_list(app, roots);
    lemma_dedup_distinct(m);
    lemma_without_path_distinct(d, app.path@);
    assert forall|i: int, j: int| 0 <= i < j < r.len() implies (#[trigger] r[i]).0 != (
    #[trigger] r[j]).0 by {
        if j == r.len() - 1 {
            assert(r[i] == w[i]);
            assert(w.contains(w[i]));
            lemma_without_path_member(d, app.path@, w[i]);
        } else {
            assert(r[i] == w[i] && r[j] == w[j]);
        }
    }
}

proof fn lemma_association_member(
    app: AppInfo,
    roots: Seq<Seq<Seq<char>>>,
    x: (Seq<char>, Seq<char>),
)
    ensures
        association_list(app, roots).contains(x) <==> (x == (app.path@, app.name@) || (
        roots.flatten().contains(x.0) && app.associated(x.0) && x.1 == label_of(x.0) && x.0
            != app.path@)),
{
    let m = matched_entries(app, roots.flatten());
    let d = dedup_by_path(m);
    let w = without_path(d, app.path@);
    let r = association_list(app, roots);
    lemma_matched_entry(app, roots.flatten(), x);
    lemma_without_path_member(d, app.path@, x);
    if r.contains(x) && x != (app.path@, app.name@) {
        let k = choose|k: int| 0 <= k < r.len() && r[k] == x;
        assert(w[k] == x);
        lemma_dedup_subset(m, x);
    }
    if x != (app.path@, app.name@) && roots.flatten().contains(x.0) && app.associated(x.0) && x.1
        == label_of(x.0) && x.0 != app.path@ {
        let k = choose|k: int| 0 <= k < m.len() && m[k] == x;
        assert(has_path(m, x.0));
        lemma_dedup_has_path(m, x.0);
        let j = choose|j: int| 0 <= j < d.len() && (#[trigger] d[j]).0 == x.0;
        assert(d.contains(d[j]));
        lemma_dedup_subset(m, d[j]);
        lemma_matched_entry(app, roots.flatten(), d[j]);
        assert(d[j] == x);
        assert(w.contains(x));
        let i = choose|i: int| 0 <= i < w.len() && w[i] == x;
        assert(r[i] == x);
    }
    if x == (app.path@, app.name@) {
        assert(r[r.len() - 1] == x);
    }
}

/// The set of association entries depends only on the set of visited paths: two
/// scans that visit the same paths, in any order and spread over roots in any
/// way, give the same entries.
pub proof fn lemma_association_set_order_independent(
    app: AppInfo,
    roots1: Seq<Seq<Seq<char>>>,
    roots2: Seq<Seq<Seq<char>>>,
)
    requires
        roots1.flatten().to_set() == roots2.flatten().to_set(),
    ensures
        association_list(app, roots1).to_set() == association_list(app, roots2).to_set(),
{
    assert forall|x: (Seq<char>, Seq<char>)|
        association_list(app, roots1).to_set().contains(x) <==> association_list(
            app,
            roots2,
        ).to_set().contains(x) by {
        lemma_association_member(app, roots1, x);
        lemma_association_member(app, roots2, x);
        assert(roots1.flatten().to_set().contains(x.0) == roots1.flatten().contains(x.0));
        assert(roots2.flatten().to_set().contains(x.0) == roots2.flatten().contains(x.0));
        assert(association_list(app, roots1).to_set().contains(x) == association_list(
            app,
            roots1,
        ).contains(x));
        assert(association_list(app, roots2).to_set().contains(x) == association_list(
            app,
            roots2,
        ).contains(x));
    }
    assert(association_list(app, roots1).to_set() =~= association_list(app, roots2).to_set());
}

/// Everything known about one bundle.
#[derive(Debug, Clone)]
pub struct AppData {
    pub app: AppInfo,
    pub app_process: Vec<AppProcess>,
    pub log: LogReceipt,
    /// Associated paths, each with its label; after a scan the bundle itself is last.
    pub associate_files: Vec<(String, String)>,
}

impl Default for AppData {
    fn default() -> (r: AppData)
        ensures
            r.is_empty(),
    {
        AppData::empty()
    }
}

impl AppData {
    /// No bundle: every field empty.
    pub open spec fn is_empty(&self) -> bool {
        &&& self.app.path@.len() == 0
        &&& self.app.name@.len() == 0
        &&& self.app.bundle_id@.len() == 0
        &&& self.app.bundle_name@.len() == 0
        &&& self.app.organization@.len() == 0
        &&& self.app_process@.len() == 0
        &&& self.log.bom_file@.len() == 0
        &&& self.associate_files@.len() == 0
    }

    /// The state with no bundle.
    pub fn empty() -> (r: AppData)
        ensures
            r.is_empty(),
    {
        AppData {
            app: AppInfo::empty(),
            app_process: Vec::new(),
            log: LogReceipt::new(),
            associate_files: Vec::new(),
        }
    }

    /// The state for the bundle at `app_path`, whose metadata file holds `metadata`
    /// when it exists; nothing found yet.
    pub fn new(app_path: &str, metadata: Option<&[u8]>) -> (r: Result<AppData, ManifestError>)
        ensures
            match manifest_failure(app_path@, bytes_of(metadata)) {
                Some(e) => r == Err::<AppData, ManifestError>(e),
                None => r matches Ok(d) && {
                    &&& d.app.read_from(app_path@, bytes_of(metadata)->Some_0)
                    &&& d.app_process@.len() == 0
                    &&& d.log.bom_file@.len() == 0
                    &&& d.associate_files@.len() == 0
                },
            },
    {
        let app = AppInfo::from_path(app_path, metadata)?;
        Ok(AppData {
            app,
            app_process: Vec::new(),
            log: LogReceipt::new(),
            associate_files: Vec::new(),
        })
    }

    /// Record the processes of `snapshot` that belong to the bundle.
    pub fn find_pid_and_command(&mut self, snapshot: &Vec<RunningProcess>)
        ensures
            final(self).app_process@.map_values(|p: AppProcess| p@) == matching_processes(
                old(self).app,
                snapshot@,
            ),
            final(self).app == old(self).app,
            final(self).log == old(self).log,
            final(self).associate_files == old(self).associate_files,
    {
        self.app_process = AppProcess::find_app_processes(&self.app, snapshot);
    }

    /// Record the bundle's receipts among `listings`, the entries of each receipt
    /// directory.
    pub fn find_log_bom(&mut self, listings: &Vec<Vec<String>>)
        ensures
            final(self).log.bom_file.deep_view() == receipts_of(old(self).app, listings.deep_view()),
            final(self).app == old(self).app,
            final(self).app_process == old(self).app_process,
            final(self).associate_files == old(self).associate_files,
    {
        self.log = LogReceipt::find_bom_files(&self.app, listings);
    }

    /// Build the association list from a scan that visited, root by root in catalog
    /// order, the paths in `visited`: each visited path that belongs to the bundle,
    /// labelled with its final component, repeated paths dropped (first occurrence
    /// wins) and the bundle's own path left to the end, then the bundle itself.
    pub fn find_associate_files(&mut self, visited: &Vec<Vec<String>>)
        ensures
            final(self).associate_files.deep_view() == association_list(
                old(self).app,
                visited.deep_view(),
            ),
            forall|i: int, j: int|
                0 <= i < j < final(self).associate_files@.len() ==> (
                #[trigger] final(self).associate_files.deep_view()[i]).0 != (
                #[trigger] final(self).associate_files.deep_view()[j]).0,
            final(self).app == old(self).app,
            final(self).app_process == old(self).app_process,
            final(self).log == old(self).log,
    {
        proof {
            lemma_association_paths_unique(self.app, visited.deep_view());
        }
        let entries = flatten_paths(visited);
        let ghost pred = |p: Seq<char>| self.app.associated(p);
        let mut found: Vec<(String, String)> = Vec::new();
        let mut i: usize = 0;
        while i < entries.len()
            invariant
                i <= entries@.len(),
                pred == (|p: Seq<char>| self.app.associated(p)),
                found.deep_view() == matched_entries(
                    self.app,
                    entries.deep_view().subrange(0, i as int),
                ),
            decreases entries@.len() - i,
        {
            let ghost before = found.deep_view();
            let path = &entries[i];
            let keep = self.app.associate_path_matches(path.as_str());
            if keep {
                found.push((path.clone(), label(path.as_str())));
            }
            proof {
                reveal(Seq::filter);
                let prefix = entries.deep_view().subrange(0, i + 1);
                assert(prefix.drop_last() =~= entries.deep_view().subrange(0, i as int));
                assert(prefix.last() == path@);
                let fb = entries.deep_view().subrange(0, i as int).filter(pred);
                if keep {
                    assert(prefix.filter(pred) == fb.push(path@));
                    assert(found.deep_view() =~= before.push((path@, label_of(path@))));
                    assert(fb.push(path@).map_values(|p: Seq<char>| (p, label_of(p))) =~= fb.map_values(
                        |p: Seq<char>| (p, label_of(p)),
                    ).push((path@, label_of(path@))));
                } else {
                    assert(prefix.filter(pred) == fb);
                    assert(found.deep_view() =~= before);
                }
            }
            i = i + 1;
        }
        assert(entries.deep_view().subrange(0, i as int) =~= entries.deep_view());
        let unique = dedup_paths(&found);
        let others = drop_path(&unique, &self.app.path);
        self.set_all_associate_file(others);
    }

    /// Make `files`, followed by the bundle itself, the association list.
    fn set_all_associate_file(&mut self, files: Vec<(String, String)>)
        ensures
            final(self).associate_files.deep_view() == files.deep_view().push(
                (old(self).app.path@, old(self).app.name@),
            ),
            final(self).app == old(self).app,
            final(self).app_process == old(self).app_process,
            final(self).log == old(self).log,
    {
        let mut all = files;
        let ghost before = all.deep_view();
        all.push((self.app.path.clone(), self.app.name.clone()));
        assert(all.deep_view() =~= before.push((self.app.path@, self.app.name@)));
        self.associate_files = all;
    }

    /// The association list with each entry's position.
    pub fn all_found_entries_enumerate(&self) -> (r: Vec<(usize, (String, String))>)
        ensures
            r@.len() == self.associate_files@.len(),
            forall|i: int|
                0 <= i < r@.len() ==> (#[trigger] r@[i]).0 == i && r@[i].1.deep_view()
                    == self.associate_files.deep_view()[i],
    {
        let mut out: Vec<(usize, (String, String))> = Vec::new();
        let mut i: usize = 0;
        while i < self.associate_files.len()
            invariant
                i <= self.associate_files@.len(),
                out@.len() == i,
                forall|k: int|
                    0 <= k < i ==> (#[trigger] out@[k]).0 == k && out@[k].1.deep_view()
                        == self.associate_files.deep_view()[k],
            decreases self.associate_files@.len() - i,
        {
            let (path, name) = &self.associate_files[i];
            out.push((i, (path.clone(), name.clone())));
            i = i + 1;
        }
        out
    }

    /// Make the paths of a failure list, each labelled with its final component (or
    /// its whole text), the association list, so that exactly they are offered again.
    pub fn keep_failed(&mut self, failed: &Vec<(String, String)>)
        ensures
            final(self).associate_files.deep_view() == failed.deep_view().map_values(
                |f: (Seq<char>, Seq<char>)| (f.0, label_of(f.0)),
            ),
            final(self).app == old(self).app,
            final(self).app_process == old(self).app_process,
            final(self).log == old(self).log,
    {
        let mut kept: Vec<(String, String)> = Vec::new();
        let mut i: usize = 0;
        while i < failed.len()
            invariant
                i <= failed@.len(),
                kept.deep_view() == failed.deep_view().subrange(0, i as int).map_values(
                    |f: (Seq<char>, Seq<char>)| (f.0, label_of(f.0)),
                ),
            decreases failed@.len() - i,
        {
            let ghost before = kept.deep_view();
            let path = &failed[i].0;
            kept.push((path.clone(), label(path.as_str())));
            i = i + 1;
            assert(path@ == failed.deep_view()[i - 1].0);
            assert(kept.deep_view() =~= before.push((path@, label_of(path@))));
            assert(kept.deep_view() =~= failed.deep_view().subrange(0, i as int).map_values(
                |f: (Seq<char>, Seq<char>)| (f.0, label_of(f.0)),
            ));
        }
        assert(failed.deep_view().subrange(0, i as int) =~= failed.deep_view());
        self.associate_files = kept;
    }

    /// Forget the bundle and everything found for it.
    pub fn reset(&mut self)
        ensures
            final(self).is_empty(),
    {
        *self = AppData::empty();
    }
}

} // verus!
