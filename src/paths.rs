//! Paths are carried as their text. The parts of a path that the logic reads
//! (its final component, stem and extension) come from `std::path::Path`.

use vstd::prelude::*;

verus! {

/// What `Path::file_name` yields for the path with this text.
pub uninterp spec fn file_name_of(path: Seq<char>) -> Option<Seq<char>>;

/// What `Path::file_stem` yields for the path with this text.
pub uninterp spec fn file_stem_of(path: Seq<char>) -> Option<Seq<char>>;

/// What `Path::extension` yields for the path with this text.
pub uninterp spec fn extension_of(path: Seq<char>) -> Option<Seq<char>>;

/// The text of `Path::join(base, rel)`.
pub uninterp spec fn joined_path_of(base: Seq<char>, rel: Seq<char>) -> Seq<char>;

/// Relies on `std::path::Path::file_name`: the final component of the path, if any.
/// The path is valid UTF-8, so is its component, and the lossy conversion keeps it whole.
#[verifier::external_body]
pub(crate) fn file_name(path: &str) -> (r: Option<String>)
    ensures
        r.deep_view() == file_name_of(path@),
{
    std::path::Path::new(path).file_name().map(|n| n.to_string_lossy().into_owned())
}

/// Relies on `std::path::Path::file_stem`: the final component without its extension.
#[verifier::external_body]
pub(crate) fn file_stem(path: &str) -> (r: Option<String>)
    ensures
        r.deep_view() == file_stem_of(path@),
{
    std::path::Path::new(path).file_stem().map(|n| n.to_string_lossy().into_owned())
}

/// Relies on `std::path::Path::extension`: the extension of the final component, if any.
#[verifier::external_body]
pub(crate) fn extension(path: &str) -> (r: Option<String>)
    ensures
        r.deep_view() == extension_of(path@),
{
    std::path::Path::new(path).extension().map(|n| n.to_string_lossy().into_owned())
}

/// Relies on `std::path::Path::join`: `rel` adjoined to `base`.
#[verifier::external_body]
pub(crate) fn path_join(base: &str, rel: &str) -> (r: String)
    ensures
        r@ == joined_path_of(base@, rel@),
{
    std::path::Path::new(base).join(rel).to_string_lossy().into_owned()
}

/// The label under which a path is listed: its final component, or the whole
/// path when it has none.
pub open spec fn label_of(path: Seq<char>) -> Seq<char> {
    match file_name_of(path) {
        Some(name) => name,
        None => path,
    }
}

/// The listing label of `path`.
pub fn label(path: &str) -> (r: String)
    ensures
        r@ == label_of(path@),
{
    match file_name(path) {
        Some(name) => name,
        None => path.to_owned(),
    }
}

/// The lists of paths laid end to end, in order.
pub fn flatten_paths(lists: &Vec<Vec<String>>) -> (r: Vec<String>)
    ensures
        r.deep_view() == lists.deep_view().flatten(),
{
    let mut out: Vec<String> = Vec::new();
    let mut i: usize = 0;
    while i < lists.len()
        invariant
            i <= lists@.len(),
            out.deep_view() == lists.deep_view().subrange(0, i as int).flatten(),
        decreases lists@.len() - i,
    {
        let list = &lists[i];
        let ghost start = out.deep_view();
        let mut j: usize = 0;
        while j < list.len()
            invariant
                i < lists@.len(),
                list == lists@[i as int],
                j <= list@.len(),
                out.deep_view() == start + list.deep_view().subrange(0, j as int),
            decreases list@.len() - j,
        {
            let ghost before = out.deep_view();
            out.push(list[j].clone());
            j = j + 1;
            assert(out.deep_view() =~= before.push(list@[j - 1]@));
            assert(out.deep_view() =~= start + list.deep_view().subrange(0, j as int));
        }
        proof {
            let prefix = lists.deep_view().subrange(0, i as int);
            prefix.lemma_flatten_push(list.deep_view());
            assert(lists.deep_view().subrange(0, i + 1) =~= prefix.push(list.deep_view()));
            assert(list.deep_view().subrange(0, j as int) =~= list.deep_view());
        }
        i = i + 1;
    }
    assert(lists.deep_view().subrange(0, i as int) =~= lists.deep_view());
    out
}

} // verus!
