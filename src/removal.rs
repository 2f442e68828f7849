//! Accounting for a removal request: which paths could not be moved to the trash,
//! and why.

use crate::text::{decimal, decimal_of};
use vstd::prelude::*;

verus! {

/// Error domain under which the platform reports a refused file operation.
pub const PRIVACY_DOMAIN: &'static str = "NSCocoaErrorDomain";

/// Error code, in that domain, of a write refused by privacy protection.
pub const PRIVACY_CODE: i64 = 513;

/// Reason given for a path that privacy protection kept from removal.
pub const PRIVACY_DENIED_REASON: &'static str =
    "Permission not allowed by macOS privacy protection (TCC)";

/// Reason given when the removal facility failed without saying why.
pub const UNKNOWN_REASON: &'static str = "unknown reason";

/// How the removal facility failed on one path.
#[derive(Debug, Clone)]
pub enum RemovalFailure {
    /// The facility reported failure without an error.
    Unknown,
    /// The facility reported an error of this domain and code.
    Error { domain: String, code: i64 },
}

/// The reason reported for a failure.
pub open spec fn reason_of(f: RemovalFailure) -> Seq<char> {
    match f {
        RemovalFailure::Unknown => UNKNOWN_REASON@,
        RemovalFailure::Error { domain, code } => if domain@ == PRIVACY_DOMAIN@ && code
            == PRIVACY_CODE {
            PRIVACY_DENIED_REASON@
        } else {
            "Failed with "@ + domain@ + " ("@ + decimal_of(code as int) + ")"@
        },
    }
}

/// The failed attempts, each as its path and reason, in attempt order.
pub open spec fn failures_of(attempts: Seq<(String, Result<(), RemovalFailure>)>) -> Seq<
    (Seq<char>, Seq<char>),
>
    decreases attempts.len(),
{
    if attempts.len() == 0 {
        Seq::empty()
    } else {
        let earlier = failures_of(attempts.drop_last());
        match attempts.last().1 {
            Ok(()) => earlier,
            Err(f) => earlier.push((attempts.last().0@, reason_of(f))),
        }
    }
}

/// The set of attempted paths.
pub open spec fn attempted_paths(attempts: Seq<(String, Result<(), RemovalFailure>)>) -> Set<
    Seq<char>,
> {
    attempts.map_values(|a: (String, Result<(), RemovalFailure>)| a.0@).to_set()
}

/// The set of paths in the failure list.
pub open spec fn failed_paths(attempts: Seq<(String, Result<(), RemovalFailure>)>) -> Set<
    Seq<char>,
> {
    failures_of(attempts).map_values(|f: (Seq<char>, Seq<char>)| f.0).to_set()
}

/// The reason reported for `failure`: privacy refusals get a distinguishing
/// message, other errors their domain and code.
pub fn removal_reason(failure: &RemovalFailure) -> (r: String)
    ensures
        r@ == reason_of(*failure),
{
    match failure {
        RemovalFailure::Unknown => UNKNOWN_REASON.to_owned(),
        RemovalFailure::Error { domain, code } => {
            let privacy = PRIVACY_DOMAIN.to_owned();
            if *domain == privacy && *code == PRIVACY_CODE {
                PRIVACY_DENIED_REASON.to_owned()
            } else {
                let mut r = "Failed with ".to_owned();
                r.append(domain.as_str());
                r.append(" (");
                let digits = decimal(*code);
                r.append(digits.as_str());
                r.append(")");
                r
            }
        },
    }
}

/// The failure list of a removal request: for each attempt that failed, its path
/// and the reason, in attempt order. Paths that are absent succeeded.
pub fn removal_failures(attempts: &Vec<(String, Result<(), RemovalFailure>)>) -> (r: Vec<
    (String, String),
>)
    ensures
        r.deep_view() == failures_of(attempts@),
{
    let mut failed: Vec<(String, String)> = Vec::new();
    let mut i: usize = 0;
    while i < attempts.len()
        invariant
            i <= attempts@.len(),
            failed.deep_view() == failures_of(attempts@.subrange(0, i as int)),
        decreases attempts@.len() - i,
    {
        let ghost before = failed.deep_view();
        let (path, outcome) = &attempts[i];
        match outcome {
            Ok(()) => {},
            Err(f) => {
                let reason = removal_reason(f);
                failed.push((path.clone(), reason));
            },
        }
        proof {
            let prefix = attempts@.subrange(0, i + 1);
            assert(prefix.drop_last() =~= attempts@.subrange(0, i as int));
            assert(failed.deep_view() =~= failures_of(prefix));
        }
        i = i + 1;
    }
    assert(attempts@.subrange(0, i as int) =~= attempts@);
    failed
}

/// How many failures of the list give `reason`.
pub open spec fn count_reason(failed: Seq<(Seq<char>, Seq<char>)>, reason: Seq<char>) -> nat
    decreases failed.len(),
{
    if failed.len() == 0 {
        0
    } else {
        count_reason(failed.drop_last(), reason) + if failed.last().1 == reason {
            1nat
        } else {
            0nat
        }
    }
}

/// Some failure of the list gives `reason`.
pub open spec fn has_reason(failed: Seq<(Seq<char>, Seq<char>)>, reason: Seq<char>) -> bool {
    exists|k: int| 0 <= k < failed.len() && (#[trigger] failed[k]).1 == reason
}

/// Some group of the summary is for `reason`.
pub open spec fn summarizes(groups: Seq<(String, usize)>, reason: Seq<char>) -> bool {
    exists|j: int| 0 <= j < groups.len() && (#[trigger] groups[j]).0@ == reason
}

/// The failure list grouped by reason: each reason once, with the number of
/// failures that give it.
pub fn failure_summary(failed: &Vec<(String, String)>) -> (r: Vec<(String, usize)>)
    ensures
        forall|j: int, k: int|
            0 <= j < k < r@.len() ==> (#[trigger] r@[j]).0@ != (#[trigger] r@[k]).0@,
        forall|j: int|
            0 <= j < r@.len() ==> (#[trigger] r@[j]).1 == count_reason(
                failed.deep_view(),
                r@[j].0@,
            ) && has_reason(failed.deep_view(), r@[j].0@),
        forall|k: int|
            0 <= k < failed@.len() ==> #[trigger] summarizes(r@, failed.deep_view()[k].1),
{
    let mut groups: Vec<(String, usize)> = Vec::new();
    let mut i: usize = 0;
    while i < failed.len()
        invariant
            i <= failed@.len(),
            forall|j: int, k: int|
                0 <= j < k < groups@.len() ==> (#[trigger] groups@[j]).0@ != (
                #[trigger] groups@[k]).0@,
            forall|j: int|
                0 <= j < groups@.len() ==> (#[trigger] groups@[j]).1 == count_reason(
                    failed.deep_view().subrange(0, i as int),
                    groups@[j].0@,
                ) && has_reason(failed.deep_view().subrange(0, i as int), groups@[j].0@),
            forall|k: int|
                0 <= k < i ==> #[trigger] summarizes(groups@, failed.deep_view()[k].1),
            forall|r: Seq<char>|
                !has_reason(failed.deep_view().subrange(0, i as int), r) ==> count_reason(
                    failed.deep_view().subrange(0, i as int),
                    r,
                ) == 0,
        decreases failed@.len() - i,
    {
        let ghost prev = failed.deep_view().subrange(0, i as int);
        let ghost next = failed.deep_view().subrange(0, i + 1);
        let ghost old_groups = groups@;
        let reason = &failed[i].1;
        assert(next.drop_last() =~= prev);
        assert(next.last() == failed.deep_view()[i as int]);
        assert(reason@ == failed.deep_view()[i as int].1);
        assert forall|r: Seq<char>| has_reason(prev, r) implies has_reason(next, r) by {
            let k = choose|k: int| 0 <= k < prev.len() && (#[trigger] prev[k]).1 == r;
            assert(next[k] == prev[k]);
        }
        assert(has_reason(next, reason@)) by {
            assert(next[i as int].1 == reason@);
        }
        assert forall|r: Seq<char>| !has_reason(next, r) implies count_reason(next, r) == 0 by {
            if has_reason(prev, r) {
            }
            assert(next.last().1 != r);
        }
        let mut j: usize = 0;
        let mut found = false;
        while j < groups.len()
            invariant_except_break
                !found,
            invariant
                j <= groups@.len(),
                groups@ == old_groups,
                forall|m: int| 0 <= m < j ==> (#[trigger] groups@[m]).0@ != reason@,
            ensures
                groups@ == old_groups,
                found ==> j < groups@.len() && groups@[j as int].0@ == reason@,
                !found ==> forall|m: int| 0 <= m < groups@.len() ==> (#[trigger] groups@[m]).0@ != reason@,
            decreases groups@.len() - j,
        {
            if groups[j].0 == *reason {
                found = true;
                break;
            }
            j = j + 1;
        }
        if found {
            assert(groups@[j as int].0@ == reason@);
            assert(groups@[j as int].1 <= prev.len()) by {
                lemma_count_le(prev, reason@);
            }
            let g = groups[j].0.clone();
            let c = groups[j].1;
            groups.set(j, (g, c + 1));
            assert forall|m: int| 0 <= m < groups@.len() implies (#[trigger] groups@[m]).1
                == count_reason(next, groups@[m].0@) && has_reason(next, groups@[m].0@) by {
                if m != j {
                    assert(groups@[m] == old_groups[m]);
                    assert(old_groups[m].0@ != reason@);
                }
            }
            assert forall|m: int, n: int| 0 <= m < n < groups@.len() implies (
            #[trigger] groups@[m]).0@ != (#[trigger] groups@[n]).0@ by {
                assert(old_groups[m].0@ != old_groups[n].0@);
            }
            assert forall|k: int| 0 <= k < i + 1 implies #[trigger] summarizes(
                groups@,
                failed.deep_view()[k].1,
            ) by {
                if k < i {
                    assert(summarizes(old_groups, failed.deep_view()[k].1));
                    let m = choose|m: int|
                        0 <= m < old_groups.len() && (#[trigger] old_groups[m]).0@ == (
                        failed.deep_view()[k]).1;
                    assert(groups@[m].0@ == old_groups[m].0@);
                } else {
                    assert(groups@[j as int].0@ == failed.deep_view()[k].1);
                }
            }
        } else {
            assert(!has_reason(prev, reason@)) by {
                if has_reason(prev, reason@) {
                    let k = choose|k: int| 0 <= k < prev.len() && (#[trigger] prev[k]).1 == reason@;
                    assert(failed.deep_view()[k] == prev[k]);
                    assert(summarizes(old_groups, failed.deep_view()[k].1));
                }
            }
            groups.push((reason.clone(), 1));
            assert forall|m: int| 0 <= m < groups@.len() implies (#[trigger] groups@[m]).1
                == count_reason(next, groups@[m].0@) && has_reason(next, groups@[m].0@) by {
                if m < old_groups.len() {
                    assert(groups@[m] == old_groups[m]);
                    assert(old_groups[m].0@ != reason@);
                }
            }
            assert forall|k: int| 0 <= k < i + 1 implies #[trigger] summarizes(
                groups@,
                failed.deep_view()[k].1,
            ) by {
                if k < i {
                    assert(summarizes(old_groups, failed.deep_view()[k].1));
                    let m = choose|m: int|
                        0 <= m < old_groups.len() && (#[trigger] old_groups[m]).0@ == (
                        failed.deep_view()[k]).1;
                    assert(groups@[m] == old_groups[m]);
                } else {
                    assert(groups@[old_groups.len() as int].0@ == failed.deep_view()[k].1);
                }
            }
        }
        i = i + 1;
    }
    assert(failed.deep_view().subrange(0, i as int) =~= failed.deep_view());
    groups
}

proof fn lemma_count_le(failed: Seq<(Seq<char>, Seq<char>)>, reason: Seq<char>)
    ensures
        count_reason(failed, reason) <= failed.len(),
    decreases failed.len(),
{
    if failed.len() > 0 {
        lemma_count_le(failed.drop_last(), reason);
    }
}

proof fn lemma_failed_path_iff(attempts: Seq<(String, Result<(), RemovalFailure>)>, x: Seq<char>)
    ensures
        failed_paths(attempts).contains(x) <==> exists|i: int|
            0 <= i < attempts.len() && (#[trigger] attempts[i]).0@ == x && attempts[i].1 is Err,
    decreases attempts.len(),
{
    let f = failures_of(attempts);
    let fm = f.map_values(|f: (Seq<char>, Seq<char>)| f.0);
    if attempts.len() > 0 {
        let rest = attempts.drop_last();
        lemma_failed_path_iff(rest, x);
        let fr = failures_of(rest);
        let frm = fr.map_values(|f: (Seq<char>, Seq<char>)| f.0);
        match attempts.last().1 {
            Ok(()) => {
                assert(fm =~= frm);
            },
            Err(e) => {
                assert(fm =~= frm.push(attempts.last().0@));
            },
        }
        if failed_paths(attempts).contains(x) {
            let k = choose|k: int| 0 <= k < fm.len() && fm[k] == x;
            if k < frm.len() {
                assert(frm[k] == x);
                assert(failed_paths(rest).contains(x));
                let i = choose|i: int|
                    0 <= i < rest.len() && (#[trigger] rest[i]).0@ == x && rest[i].1 is Err;
                assert(attempts[i] == rest[i]);
            } else {
                assert(attempts[attempts.len() - 1].0@ == x);
            }
        }
        if exists|i: int|
            0 <= i < attempts.len() && (#[trigger] attempts[i]).0@ == x && attempts[i].1 is Err {
            let i = choose|i: int|
                0 <= i < attempts.len() && (#[trigger] attempts[i]).0@ == x && attempts[i].1 is Err;
            if i < attempts.len() - 1 {
                assert(rest[i] == attempts[i]);
                assert(failed_paths(rest).contains(x));
                let k = choose|k: int| 0 <= k < frm.len() && frm[k] == x;
                assert(fm[k] == x);
            } else {
                assert(fm[fm.len() - 1] == x);
            }
        }
    } else {
        assert(fm.len() == 0);
    }
}

/// A removal request partitions the attempted paths: every failed path was
/// attempted, the succeeded paths are the attempted ones not in the failure list,
/// the two sets are disjoint and together make up the input. When each path was
/// attempted once, a path is in the failure list exactly when its attempt failed.
pub proof fn lemma_removal_partition(attempts: Seq<(String, Result<(), RemovalFailure>)>)
    ensures
        failed_paths(attempts).subset_of(attempted_paths(attempts)),
        attempted_paths(attempts).difference(failed_paths(attempts)).disjoint(
            failed_paths(attempts),
        ),
        attempted_paths(attempts).difference(failed_paths(attempts)).union(failed_paths(attempts))
            == attempted_paths(attempts),
        attempts.map_values(|a: (String, Result<(), RemovalFailure>)| a.0@).no_duplicates()
            ==> forall|i: int|
            0 <= i < attempts.len() ==> (failed_paths(attempts).contains(
                (#[trigger] attempts[i]).0@,
            ) <==> attempts[i].1 is Err),
{
    let paths = attempts.map_values(|a: (String, Result<(), RemovalFailure>)| a.0@);
    assert forall|x: Seq<char>| failed_paths(attempts).contains(x) implies attempted_paths(
        attempts,
    ).contains(x) by {
        lemma_failed_path_iff(attempts, x);
        let i = choose|i: int|
            0 <= i < attempts.len() && (#[trigger] attempts[i]).0@ == x && attempts[i].1 is Err;
        assert(paths[i] == x);
    }
    assert(attempted_paths(attempts).difference(failed_paths(attempts)).union(
        failed_paths(attempts),
    ) =~= attempted_paths(attempts));
    if paths.no_duplicates() {
        assert forall|i: int| 0 <= i < attempts.len() implies (failed_paths(attempts).contains(
            (#[trigger] attempts[i]).0@,
        ) <==> attempts[i].1 is Err) by {
            lemma_failed_path_iff(attempts, attempts[i].0@);
            if failed_paths(attempts).contains(attempts[i].0@) {
                let j = choose|j: int|
                    0 <= j < attempts.len() && (#[trigger] attempts[j]).0@ == attempts[i].0@
                        && attempts[j].1 is Err;
                assert(paths[j] == paths[i]);
            }
        }
    }
}

} // verus!
