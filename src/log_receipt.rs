//! Package receipts that mention a bundle, and where their readable exports go.

use crate::app_info::{AppInfo, MatchRules};
use crate::helpers::contains_ignore_case;
use crate::paths::{extension, extension_of, file_stem, file_stem_of, flatten_paths, joined_path_of, path_join};
use vstd::prelude::*;

verus! {

/// The extension of a receipt file.
pub const RECEIPT_EXTENSION: &'static str = "bom";

/// What follows a receipt's stem in the name of its export.
pub const EXPORT_SUFFIX: &'static str = ".log";

/// The file at `path` is a receipt of `app`: it has the receipt extension and its
/// name contains the display name, the executable name, the organization or the
/// bundle id.
pub open spec fn is_receipt_for(app: AppInfo, path: Seq<char>) -> bool {
    &&& extension_of(path) == Some(RECEIPT_EXTENSION@)
    &&& {
        ||| contains_ignore_case(path, app.name@)
        ||| contains_ignore_case(path, app.bundle_name@)
        ||| contains_ignore_case(path, app.organization@)
        ||| contains_ignore_case(path, app.bundle_id@)
    }
}

/// The receipts of `app` among the entries of the receipt directories, in directory
/// then entry order.
pub open spec fn receipts_of(app: AppInfo, listings: Seq<Seq<Seq<char>>>) -> Seq<Seq<char>> {
    listings.flatten().filter(|p: Seq<char>| is_receipt_for(app, p))
}

/// Where the export of the receipt at `receipt` goes inside `dir`: the receipt's
/// stem with the export suffix.
pub open spec fn export_target_of(receipt: Seq<char>, dir: Seq<char>) -> Option<Seq<char>> {
    match file_stem_of(receipt) {
        Some(stem) => Some(joined_path_of(dir, stem + EXPORT_SUFFIX@)),
        None => None,
    }
}

/// The receipt files found for a bundle.
#[derive(Debug, Clone)]
pub struct LogReceipt {
    pub bom_file: Vec<String>,
}

/// Receipt discovery keeps exactly the listed files that carry the receipt
/// extension and whose name contains one of the four identity fields, and
/// nothing that was not listed.
pub proof fn lemma_receipts_are_matching_files(app: AppInfo, listings: Seq<Seq<Seq<char>>>)
    ensures
        forall|i: int|
            0 <= i < receipts_of(app, listings).len() ==> {
                &&& is_receipt_for(app, #[trigger] receipts_of(app, listings)[i])
                &&& listings.flatten().contains(receipts_of(app, listings)[i])
            },
        forall|p: Seq<char>|
            listings.flatten().contains(p) && is_receipt_for(app, p) ==> #[trigger] receipts_of(
                app,
                listings,
            ).contains(p),
{
    broadcast use vstd::seq_lib::group_filter_ensures;

    let all = listings.flatten();
    let pred = |p: Seq<char>| is_receipt_for(app, p);
    assert forall|i: int| 0 <= i < receipts_of(app, listings).len() implies listings.flatten().contains(
        #[trigger] receipts_of(app, listings)[i],
    ) by {
        assert(all.filter(pred).contains(all.filter(pred)[i]));
        all.lemma_filter_contains_rev(pred, all.filter(pred)[i]);
    }
    assert forall|p: Seq<char>|
        listings.flatten().contains(p) && is_receipt_for(app, p) implies #[trigger] receipts_of(
        app,
        listings,
    ).contains(p) by {
        let k = choose|k: int| 0 <= k < all.len() && all[k] == p;
        assert(pred(all[k]));
    }
}

impl LogReceipt {
    /// No receipts.
    pub fn new() -> (r: Self)
        ensures
            r.bom_file@.len() == 0,
    {
        LogReceipt { bom_file: Vec::new() }
    }

    /// The receipts of `app` among `listings`, the entries of each receipt directory
    /// in catalog order (an unreadable directory lists nothing).
    pub fn find_bom_files(app: &AppInfo, listings: &Vec<Vec<String>>) -> (r: Self)
        ensures
            r.bom_file.deep_view() == receipts_of(*app, listings.deep_view()),
    {
        let entries = flatten_paths(listings);
        let ext = RECEIPT_EXTENSION.to_owned();
        let ghost pred = |p: Seq<char>| is_receipt_for(*app, p);
        let mut found: Vec<String> = Vec::new();
        let mut i: usize = 0;
        while i < entries.len()
            invariant
                i <= entries@.len(),
                ext@ == RECEIPT_EXTENSION@,
                pred == (|p: Seq<char>| is_receipt_for(*app, p)),
                found.deep_view() == entries.deep_view().subrange(0, i as int).filter(pred),
            decreases entries@.len() - i,
        {
            let ghost before = found.deep_view();
            let path = &entries[i];
            let has_ext = match extension(path.as_str()) {
                Some(e) => e == ext,
                None => false,
            };
            let rules = [
                (MatchRules::Contain, app.name.as_str()),
                (MatchRules::Contain, app.bundle_name.as_str()),
                (MatchRules::Contain, app.organization.as_str()),
                (MatchRules::Contain, app.bundle_id.as_str()),
            ];
            let keep = has_ext && app.rules_matches(path.as_str(), &rules);
            proof {
                if has_ext && is_receipt_for(*app, path@) {
                    let rules = rules@;
                    if contains_ignore_case(path@, app.name@) {
                        assert(rules[0].0.holds(path@, rules[0].1@));
                    } else if contains_ignore_case(path@, app.bundle_name@) {
                        assert(rules[1].0.holds(path@, rules[1].1@));
                    } else if contains_ignore_case(path@, app.organization@) {
                        assert(rules[2].0.holds(path@, rules[2].1@));
                    } else {
                        assert(rules[3].0.holds(path@, rules[3].1@));
                    }
                }
            }
            if keep {
                found.push(path.clone());
            }
            proof {
                reveal(Seq::filter);
                let prefix = entries.deep_view().subrange(0, i + 1);
                assert(prefix.drop_last() =~= entries.deep_view().subrange(0, i as int));
                assert(prefix.last() == path@);
                assert(keep == is_receipt_for(*app, path@));
                if keep {
                    assert(found.deep_view() =~= before.push(path@));
                } else {
                    assert(found.deep_view() =~= before);
                }
                assert(found.deep_view() =~= prefix.filter(pred));
            }
            i = i + 1;
        }
        assert(entries.deep_view().subrange(0, i as int) =~= entries.deep_view());
        LogReceipt { bom_file: found }
    }

    /// Where the export of `receipt` goes inside `log_dir`; `None` when the receipt
    /// path names no file.
    pub fn export_target(receipt: &str, log_dir: &str) -> (r: Option<String>)
        ensures
            r.deep_view() == export_target_of(receipt@, log_dir@),
    {
        match file_stem(receipt) {
            Some(stem) => {
                let mut name = stem;
                name.append(EXPORT_SUFFIX);
                Some(path_join(log_dir, name.as_str()))
            },
            None => None,
        }
    }
}

} // verus!
