//! The fixed catalog of directories where applications leave support data.

use crate::paths::{file_name, file_name_of, joined_path_of, path_join};
use vstd::prelude::*;

verus! {

/// The home directory assumed when the real one cannot be resolved; scanning it
/// finds nothing.
pub const UNKNOWN_HOME: &'static str = "/Users/Unknown";

/// The name of a directory that holds package receipts.
pub const RECEIPTS_DIR_NAME: &'static str = "receipts";

/// Library subdirectories under the user's home directory.
pub open spec fn home_library_dirs() -> Seq<Seq<char>> {
    seq![
        "Library"@,
        "Library/Application Scripts"@,
        "Library/Application Support"@,
        "Library/Application Support/CrashReporter"@,
        "Library/Containers"@,
        "Library/Caches"@,
        "Library/HTTPStorages"@,
        "Library/Group Containers"@,
        "Library/Internet Plug-Ins"@,
        "Library/LaunchAgents"@,
        "Library/Logs"@,
        "Library/Preferences"@,
        "Library/Preferences/ByHost"@,
        "Library/Saved Application State"@,
        "Library/WebKit"@,
    ]
}

/// System-wide directories.
pub open spec fn system_dirs() -> Seq<Seq<char>> {
    seq![
        "/Library"@,
        "/Library/Application Support"@,
        "/Library/Application Support/CrashReporter"@,
        "/Library/Caches"@,
        "/Library/Extensions"@,
        "/Library/Internet Plug-Ins"@,
        "/Library/LaunchAgents"@,
        "/Library/LaunchDaemons"@,
        "/Library/Logs"@,
        "/Library/Preferences"@,
        "/Library/PrivilegedHelperTools"@,
        "/private/var/db/receipts"@,
        "/usr/local/bin"@,
        "/usr/local/etc"@,
        "/usr/local/opt"@,
        "/usr/local/sbin"@,
        "/usr/local/share"@,
        "/usr/local/var"@,
    ]
}

/// The one-element sequence of a present value, or the empty one.
pub open spec fn present(d: Option<Seq<char>>) -> Seq<Seq<char>> {
    match d {
        Some(p) => seq![p],
        None => Seq::empty(),
    }
}

/// The catalog for a home directory and the two optional platform cache and
/// temporary directories.
pub open spec fn default_locations(
    home: Seq<char>,
    cache_dir: Option<Seq<char>>,
    temp_dir: Option<Seq<char>>,
) -> Seq<Seq<char>> {
    home_library_dirs().map_values(|rel: Seq<char>| joined_path_of(home, rel)) + system_dirs()
        + present(cache_dir) + present(temp_dir)
}

/// The directory is one that holds package receipts: its name is `receipts`.
pub open spec fn is_receipts_dir(path: Seq<char>) -> bool {
    file_name_of(path) == Some(RECEIPTS_DIR_NAME@)
}

/// The roots that a scan walks.
#[derive(Debug, Clone)]
pub struct LocationsScan {
    pub paths: Vec<String>,
}

impl LocationsScan {
    /// The catalog for `home` (or a placeholder when it is unknown) and the platform
    /// cache and temporary directories, when the system names them.
    pub fn new(home: Option<&str>, cache_dir: Option<String>, temp_dir: Option<String>) -> (r: Self)
        ensures
            r.paths.deep_view() == default_locations(
                match home {
                    Some(h) => h@,
                    None => UNKNOWN_HOME@,
                },
                cache_dir.deep_view(),
                temp_dir.deep_view(),
            ),
    {
        let home: &str = match home {
            Some(h) => h,
            None => UNKNOWN_HOME,
        };
        let user = [
            "Library",
            "Library/Application Scripts",
            "Library/Application Support",
            "Library/Application Support/CrashReporter",
            "Library/Containers",
            "Library/Caches",
            "Library/HTTPStorages",
            "Library/Group Containers",
            "Library/Internet Plug-Ins",
            "Library/LaunchAgents",
            "Library/Logs",
            "Library/Preferences",
            "Library/Preferences/ByHost",
            "Library/Saved Application State",
            "Library/WebKit",
        ];
        let system = [
            "/Library",
            "/Library/Application Support",
            "/Library/Application Support/CrashReporter",
            "/Library/Caches",
            "/Library/Extensions",
            "/Library/Internet Plug-Ins",
            "/Library/LaunchAgents",
            "/Library/LaunchDaemons",
            "/Library/Logs",
            "/Library/Preferences",
            "/Library/PrivilegedHelperTools",
            "/private/var/db/receipts",
            "/usr/local/bin",
            "/usr/local/etc",
            "/usr/local/opt",
            "/usr/local/sbin",
            "/usr/local/share",
            "/usr/local/var",
        ];
        assert(user@.map_values(|s: &str| s@) =~= home_library_dirs());
        assert(system@.map_values(|s: &str| s@) =~= system_dirs());
        let ghost joined = home_library_dirs().map_values(|rel: Seq<char>| joined_path_of(home@, rel));
        let mut paths: Vec<String> = Vec::new();
        let mut i: usize = 0;
        while i < 15
            invariant
                i <= 15,
                user@.len() == 15,
                user@.map_values(|s: &str| s@) == home_library_dirs(),
                joined == home_library_dirs().map_values(|rel: Seq<char>| joined_path_of(home@, rel)),
                paths.deep_view() == joined.subrange(0, i as int),
            decreases 15 - i,
        {
            let ghost before = paths.deep_view();
            paths.push(path_join(home, user[i]));
            assert(user@.map_values(|s: &str| s@)[i as int] == user@[i as int]@);
            i = i + 1;
            assert(paths.deep_view() =~= before.push(joined[i - 1]));
            assert(paths.deep_view() =~= joined.subrange(0, i as int));
        }
        let mut k: usize = 0;
        while k < 18
            invariant
                k <= 18,
                system@.len() == 18,
                system@.map_values(|s: &str| s@) == system_dirs(),
                joined.len() == 15,
                paths.deep_view() == joined + system_dirs().subrange(0, k as int),
            decreases 18 - k,
        {
            let ghost before = paths.deep_view();
            paths.push(system[k].to_owned());
            assert(system@.map_values(|s: &str| s@)[k as int] == system@[k as int]@);
            k = k + 1;
            assert(paths.deep_view() =~= before.push(system_dirs()[k - 1]));
            assert(paths.deep_view() =~= joined + system_dirs().subrange(0, k as int));
        }
        assert(system_dirs().subrange(0, 18) =~= system_dirs());
        let ghost fixed = paths.deep_view();
        match cache_dir {
            Some(p) => paths.push(p),
            None => {},
        }
        assert(paths.deep_view() =~= fixed + present(cache_dir.deep_view()));
        let ghost with_cache = paths.deep_view();
        match temp_dir {
            Some(p) => paths.push(p),
            None => {},
        }
        assert(paths.deep_view() =~= with_cache + present(temp_dir.deep_view()));
        LocationsScan { paths }
    }

    /// The catalog's directories that hold package receipts, in catalog order.
    pub fn receipts_dirs(&self) -> (r: Vec<String>)
        ensures
            r.deep_view() == self.paths.deep_view().filter(|p: Seq<char>| is_receipts_dir(p)),
    {
        let want = RECEIPTS_DIR_NAME.to_owned();
        let mut out: Vec<String> = Vec::new();
        let mut i: usize = 0;
        while i < self.paths.len()
            invariant
                i <= self.paths@.len(),
                want@ == RECEIPTS_DIR_NAME@,
                out.deep_view() == self.paths.deep_view().subrange(0, i as int).filter(
                    |p: Seq<char>| is_receipts_dir(p),
                ),
            decreases self.paths@.len() - i,
        {
            let ghost before = out.deep_view();
            let p = &self.paths[i];
            let keep = match file_name(p.as_str()) {
                Some(name) => name == want,
                None => false,
            };
            if keep {
                out.push(p.clone());
            }
            proof {
                let prefix = self.paths.deep_view().subrange(0, i + 1);
                reveal(Seq::filter);
                assert(prefix.drop_last() =~= self.paths.deep_view().subrange(0, i as int));
                assert(prefix.last() == p@);
                assert(keep == is_receipts_dir(p@));
                if keep {
                    assert(out.deep_view() =~= before.push(p@));
                } else {
                    assert(out.deep_view() =~= before);
                }
                assert(out.deep_view() =~= prefix.filter(|p: Seq<char>| is_receipts_dir(p)));
            }
            i = i + 1;
        }
        assert(self.paths.deep_view().subrange(0, i as int) =~= self.paths.deep_view());
        out
    }
}

} // verus!
