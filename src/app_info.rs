//! Identity of an application bundle, read from its property-list metadata, and
//! the rules by which a filesystem path is judged to belong to it.

use crate::helpers::{contains_ignore_case, equals_ignore_case, path_contains_ignore_case, path_equals_ignore_case};
use crate::paths::{file_stem, file_stem_of};
use crate::text::chars_of;
use vstd::prelude::*;

verus! {

/// Metadata key of the reverse-DNS bundle identifier.
pub const BUNDLE_ID_KEY: &'static str = "CFBundleIdentifier";

/// Metadata key of the human-readable name.
pub const DISPLAY_NAME_KEY: &'static str = "CFBundleDisplayName";

/// Metadata key of the executable's name.
pub const EXECUTABLE_KEY: &'static str = "CFBundleExecutable";

/// What plist reads under `key` from the bytes `doc`: `None` when the bytes hold no
/// property list; otherwise the string stored under `key` in the top-level
/// dictionary, or `None` inside when the top level is no dictionary, the key is
/// absent or its value is no string.
pub uninterp spec fn plist_entry_of(doc: Seq<u8>, key: Seq<char>) -> Option<Option<Seq<char>>>;

/// The error of plist's readers, carried opaque; only its presence is looked at.
#[verifier::external_type_specification]
#[verifier::external_body]
pub struct ExPlistError(plist::Error);

/// Relies on plist's `Value::from_reader` (read a property list in any of its
/// encodings) and its accessors `Value::as_dictionary`, `Dictionary::get` and
/// `Value::as_string`: the top-level string entry under `key`. Whether the bytes
/// parse does not depend on the key: they are read before any key is looked up.
#[verifier::external_body]
fn plist_string(doc: &[u8], key: &str) -> (r: Result<Option<String>, plist::Error>)
    ensures
        match r {
            Ok(entry) => plist_entry_of(doc@, key@) == Some(entry.deep_view()),
            Err(_) => plist_entry_of(doc@, key@) is None,
        },
        forall|k: Seq<char>| (#[trigger] plist_entry_of(doc@, k) is None) == (r is Err),
{
    let value = plist::Value::from_reader(std::io::Cursor::new(doc))?;
    let entry = value.as_dictionary().and_then(|d| d.get(key)).and_then(plist::Value::as_string);
    Ok(entry.map(str::to_owned))
}

/// The text after the first `.` of `s`, if it has one.
pub open spec fn after_first_dot(s: Seq<char>) -> Option<Seq<char>>
    decreases s.len(),
{
    if s.len() == 0 {
        None
    } else if s[0] == '.' {
        Some(s.drop_first())
    } else {
        after_first_dot(s.drop_first())
    }
}

/// The text of `s` before its first `.`, or all of it.
pub open spec fn before_dot(s: Seq<char>) -> Seq<char>
    decreases s.len(),
{
    if s.len() == 0 || s[0] == '.' {
        Seq::empty()
    } else {
        seq![s[0]] + before_dot(s.drop_first())
    }
}

/// The second dot-separated component of a bundle identifier, empty when there is none.
pub open spec fn organization_of(bundle_id: Seq<char>) -> Seq<char> {
    match after_first_dot(bundle_id) {
        Some(rest) => before_dot(rest),
        None => Seq::empty(),
    }
}

proof fn lemma_after_first_dot(s: Seq<char>, a: int)
    requires
        0 <= a <= s.len(),
        forall|k: int| 0 <= k < a ==> s[k] != '.',
        a == s.len() || s[a] == '.',
    ensures
        after_first_dot(s) == (if a == s.len() {
            None
        } else {
            Some(s.subrange(a + 1, s.len() as int))
        }),
    decreases a,
{
    if s.len() > 0 && s[0] != '.' {
        lemma_after_first_dot(s.drop_first(), a - 1);
    }
    if a < s.len() && a == 0 {
        assert(s.drop_first() =~= s.subrange(1, s.len() as int));
    }
    if a < s.len() && a > 0 {
        assert(s.drop_first().subrange(a, s.len() - 1) =~= s.subrange(a + 1, s.len() as int));
    }
}

proof fn lemma_before_dot(s: Seq<char>, b: int)
    requires
        0 <= b <= s.len(),
        forall|k: int| 0 <= k < b ==> s[k] != '.',
        b == s.len() || s[b] == '.',
    ensures
        before_dot(s) == s.subrange(0, b),
    decreases b,
{
    if b > 0 {
        lemma_before_dot(s.drop_first(), b - 1);
        assert(seq![s[0]] + s.drop_first().subrange(0, b - 1) =~= s.subrange(0, b));
    } else {
        assert(s.subrange(0, 0) =~= Seq::<char>::empty());
    }
}

/// The organization named by a bundle identifier: its second dot-separated component.
pub fn organization_from(bundle_id: &str) -> (r: String)
    ensures
        r@ == organization_of(bundle_id@),
{
    let cs = chars_of(bundle_id);
    let n = cs.len();
    let mut a: usize = 0;
    while a < n && cs[a] != '.'
        invariant
            cs@ == bundle_id@,
            n == cs@.len(),
            a <= n,
            forall|k: int| 0 <= k < a ==> cs@[k] != '.',
        decreases n - a,
    {
        a = a + 1;
    }
    proof {
        lemma_after_first_dot(bundle_id@, a as int);
    }
    if a == n {
        return String::new();
    }
    let mut b: usize = a + 1;
    while b < n && cs[b] != '.'
        invariant
            cs@ == bundle_id@,
            n == cs@.len(),
            a < b <= n,
            forall|k: int| a < k < b ==> cs@[k] != '.',
        decreases n - b,
    {
        b = b + 1;
    }
    proof {
        let rest = bundle_id@.subrange(a + 1, n as int);
        lemma_before_dot(rest, b - a - 1);
        assert(rest.subrange(0, b - a - 1) =~= bundle_id@.subrange(a + 1, b as int));
    }
    bundle_id.substring_char(a + 1, b).to_owned()
}

/// How a rule compares a path's final component with a value.
#[derive(Debug, Clone, Copy, PartialEq, Eq, Structural)]
pub enum MatchRules {
    /// The normalized component equals the normalized value.
    Equal,
    /// The normalized component contains the normalized value.
    Contain,
}

impl MatchRules {
    /// Whether the rule holds of `path` and `value`.
    pub open spec fn holds(self, path: Seq<char>, value: Seq<char>) -> bool {
        match self {
            MatchRules::Equal => equals_ignore_case(path, value),
            MatchRules::Contain => contains_ignore_case(path, value),
        }
    }

    /// Apply the rule to `path` and `value`.
    pub fn match_path(&self, path: &str, value: &str) -> (r: bool)
        ensures
            r == self.holds(path@, value@),
    {
        match self {
            MatchRules::Equal => path_equals_ignore_case(path, value),
            MatchRules::Contain => path_contains_ignore_case(path, value),
        }
    }
}

/// Some rule of the list holds of `path` with its value.
pub open spec fn some_rule_holds(path: Seq<char>, rules: Seq<(MatchRules, &str)>) -> bool {
    exists|i: int| 0 <= i < rules.len() && (#[trigger] rules[i]).0.holds(path, rules[i].1@)
}

/// Why a bundle's metadata could not give its identity.
#[derive(Debug, Clone, Copy, PartialEq, Eq, Structural)]
pub enum ManifestError {
    /// The bundle holds no metadata file.
    MissingMetadata,
    /// The metadata file is no property list.
    UnreadableMetadata,
    /// The bundle identifier or the executable name is absent.
    MissingIdentifier,
    /// Neither a display name nor a file stem names the bundle.
    MissingName,
}

/// The identity of an application bundle.
#[derive(Debug, Clone)]
pub struct AppInfo {
    pub path: String,
    pub name: String,
    pub bundle_id: String,
    /// The executable's name.
    pub bundle_name: String,
    pub organization: String,
}

/// The display name: the metadata's, else the stem of the bundle's file name.
pub open spec fn display_name_of(app_path: Seq<char>, doc: Seq<u8>) -> Option<Seq<char>> {
    match plist_entry_of(doc, DISPLAY_NAME_KEY@) {
        Some(Some(name)) => Some(name),
        _ => file_stem_of(app_path),
    }
}

/// The bytes of an optional metadata file.
pub open spec fn bytes_of(metadata: Option<&[u8]>) -> Option<Seq<u8>> {
    match metadata {
        Some(doc) => Some(doc@),
        None => None,
    }
}

/// The failure, if any, of reading an identity from the bundle at `app_path`, whose
/// metadata file holds `metadata` when it exists. The entries are read in the order
/// bundle id, display name, executable name.
pub open spec fn manifest_failure(app_path: Seq<char>, metadata: Option<Seq<u8>>) -> Option<
    ManifestError,
> {
    match metadata {
        None => Some(ManifestError::MissingMetadata),
        Some(doc) => match plist_entry_of(doc, BUNDLE_ID_KEY@) {
            None => Some(ManifestError::UnreadableMetadata),
            Some(None) => Some(ManifestError::MissingIdentifier),
            Some(Some(_)) => if display_name_of(app_path, doc) is None {
                Some(ManifestError::MissingName)
            } else if plist_entry_of(doc, EXECUTABLE_KEY@) == Some(None::<Seq<char>>) {
                Some(ManifestError::MissingIdentifier)
            } else {
                None
            },
        },
    }
}

impl Default for AppInfo {
    fn default() -> (r: AppInfo)
        ensures
            r.path@.len() == 0,
            r.name@.len() == 0,
            r.bundle_id@.len() == 0,
            r.bundle_name@.len() == 0,
            r.organization@.len() == 0,
    {
        AppInfo::empty()
    }
}

impl AppInfo {
    /// This is the identity that the metadata `doc` gives the bundle at `app_path`.
    pub open spec fn read_from(self, app_path: Seq<char>, doc: Seq<u8>) -> bool {
        &&& self.path@ == app_path
        &&& plist_entry_of(doc, BUNDLE_ID_KEY@) == Some(Some(self.bundle_id@))
        &&& display_name_of(app_path, doc) == Some(self.name@)
        &&& plist_entry_of(doc, EXECUTABLE_KEY@) == Some(Some(self.bundle_name@))
        &&& self.organization@ == organization_of(self.bundle_id@)
    }

    /// The identity with every field empty.
    pub fn empty() -> (r: AppInfo)
        ensures
            r.path@.len() == 0,
            r.name@.len() == 0,
            r.bundle_id@.len() == 0,
            r.bundle_name@.len() == 0,
            r.organization@.len() == 0,
    {
        AppInfo {
            path: String::new(),
            name: String::new(),
            bundle_id: String::new(),
            bundle_name: String::new(),
            organization: String::new(),
        }
    }

    /// Read the identity of the bundle at `app_path`; `metadata` holds the bytes of
    /// its metadata file, or `None` when the bundle has none.
    pub fn from_path(app_path: &str, metadata: Option<&[u8]>) -> (r: Result<AppInfo, ManifestError>)
        ensures
            match manifest_failure(app_path@, bytes_of(metadata)) {
                Some(e) => r == Err::<AppInfo, ManifestError>(e),
                None => r matches Ok(info) && info.read_from(app_path@, bytes_of(metadata)->Some_0),
            },
    {
        let doc = match metadata {
            None => return Err(ManifestError::MissingMetadata),
            Some(d) => d,
        };
        let bundle_id = match plist_string(doc, BUNDLE_ID_KEY) {
            Err(_) => return Err(ManifestError::UnreadableMetadata),
            Ok(None) => return Err(ManifestError::MissingIdentifier),
            Ok(Some(id)) => id,
        };
        let name = match plist_string(doc, DISPLAY_NAME_KEY) {
            Err(_) => return Err(ManifestError::UnreadableMetadata),
            Ok(Some(n)) => n,
            Ok(None) => match file_stem(app_path) {
                Some(stem) => stem,
                None => return Err(ManifestError::MissingName),
            },
        };
        let executable = match plist_string(doc, EXECUTABLE_KEY) {
            Err(_) => return Err(ManifestError::UnreadableMetadata),
            Ok(None) => return Err(ManifestError::MissingIdentifier),
            Ok(Some(e)) => e,
        };
        let organization = organization_from(bundle_id.as_str());
        Ok(AppInfo {
            path: app_path.to_owned(),
            name,
            bundle_id,
            bundle_name: executable,
            organization,
        })
    }

    /// Whether `path` belongs to this bundle: its final component equals the display
    /// name, the executable name or the organization, or contains the bundle id.
    pub open spec fn associated(&self, path: Seq<char>) -> bool {
        ||| equals_ignore_case(path, self.name@)
        ||| equals_ignore_case(path, self.bundle_name@)
        ||| equals_ignore_case(path, self.organization@)
        ||| contains_ignore_case(path, self.bundle_id@)
    }

    /// A path belongs to the bundle when its final component contains the bundle id,
    /// or equals the display name, the executable name or the organization, each
    /// compared after normalization.
    pub proof fn lemma_rules_that_associate(&self, path: Seq<char>)
        ensures
            contains_ignore_case(path, self.bundle_id@) ==> self.associated(path),
            equals_ignore_case(path, self.organization@) ==> self.associated(path),
            equals_ignore_case(path, self.name@) ==> self.associated(path),
            equals_ignore_case(path, self.bundle_name@) ==> self.associated(path),
    {
    }

    /// Whether `path` belongs to this bundle by the association rules.
    pub fn associate_path_matches(&self, path: &str) -> (r: bool)
        ensures
            r == self.associated(path@),
    {
        let rules = [
            (MatchRules::Equal, self.name.as_str()),
            (MatchRules::Equal, self.bundle_name.as_str()),
            (MatchRules::Equal, self.organization.as_str()),
            (MatchRules::Contain, self.bundle_id.as_str()),
        ];
        let r = self.rules_matches(path, &rules);
        proof {
            let s = rules@;
            if self.associated(path@) {
                if equals_ignore_case(path@, self.name@) {
                    assert(s[0].0.holds(path@, s[0].1@));
                } else if equals_ignore_case(path@, self.bundle_name@) {
                    assert(s[1].0.holds(path@, s[1].1@));
                } else if equals_ignore_case(path@, self.organization@) {
                    assert(s[2].0.holds(path@, s[2].1@));
                } else {
                    assert(s[3].0.holds(path@, s[3].1@));
                }
            }
        }
        r
    }

    /// Whether any of `rules` holds of `path` with its value.
    pub fn rules_matches(&self, path: &str, rules: &[(MatchRules, &str)]) -> (r: bool)
        ensures
            r == some_rule_holds(path@, rules@),
    {
        let mut i: usize = 0;
        while i < rules.len()
            invariant
                i <= rules@.len(),
                forall|k: int| 0 <= k < i ==> !(#[trigger] rules@[k]).0.holds(path@, rules@[k].1@),
            decreases rules@.len() - i,
        {
            let (rule, value) = rules[i];
            if rule.match_path(path, value) {
                return true;
            }
            i = i + 1;
        }
        false
    }
}

} // verus!
