//! The state of an interactive session, replaced wholesale when the session resets.

use crate::cleaner::Cleaner;
use crate::paths::label_of;
use vstd::prelude::*;

verus! {

/// What the user has chosen and what was found for the chosen bundle.
#[derive(Debug, Clone)]
pub struct AppState {
    /// The bundle chosen for removal.
    pub input_file: String,
    /// The folder chosen for receipt exports.
    pub output_file: String,
    pub cleaner: Cleaner,
    /// The entry of the association list last selected.
    pub selected_file: Option<usize>,
}

impl AppState {
    /// Nothing chosen and nothing found.
    pub open spec fn is_fresh(&self) -> bool {
        &&& self.input_file@.len() == 0
        &&& self.output_file@.len() == 0
        &&& self.cleaner.app_data.is_empty()
        &&& self.selected_file is None
    }

    /// A fresh session.
    pub fn new() -> (r: Self)
        ensures
            r.is_fresh(),
    {
        AppState {
            input_file: String::new(),
            output_file: String::new(),
            cleaner: Cleaner::new(),
            selected_file: None,
        }
    }

    /// Start over: the whole state is replaced by a fresh one.
    pub fn reset(&mut self)
        ensures
            final(self).is_fresh(),
    {
        *self = AppState::new();
    }

    /// Select entry `index` of the association list; its path, if there is one.
    pub fn select(&mut self, index: usize) -> (r: Option<String>)
        ensures
            final(self).selected_file == Some(index),
            final(self).cleaner == old(self).cleaner,
            final(self).input_file == old(self).input_file,
            final(self).output_file == old(self).output_file,
            index < old(self).cleaner.app_data.associate_files@.len() <==> r is Some,
            r matches Some(p) ==> p@ == old(self).cleaner.app_data.associate_files.deep_view()[index as int].0,
    {
        self.selected_file = Some(index);
        if index < self.cleaner.app_data.associate_files.len() {
            Some(self.cleaner.app_data.associate_files[index].0.clone())
        } else {
            None
        }
    }

    /// Take in the failure list of a removal request. When nothing failed the
    /// session starts over and `true` is returned; otherwise exactly the failed
    /// paths become the association list, to be offered again, and `false` is
    /// returned.
    pub fn apply_removal_result(&mut self, failed: &Vec<(String, String)>) -> (r: bool)
        ensures
            r == (failed@.len() == 0),
            r ==> final(self).is_fresh(),
            !r ==> {
                &&& final(self).cleaner.app_data.associate_files.deep_view() == failed.deep_view().map_values(
                    |f: (Seq<char>, Seq<char>)| (f.0, label_of(f.0)),
                )
                &&& final(self).cleaner.app_data.app == old(self).cleaner.app_data.app
                &&& final(self).cleaner.app_data.app_process == old(self).cleaner.app_data.app_process
                &&& final(self).cleaner.app_data.log == old(self).cleaner.app_data.log
                &&& final(self).selected_file == old(self).selected_file
                &&& final(self).input_file == old(self).input_file
                &&& final(self).output_file == old(self).output_file
            },
    {
        if failed.len() == 0 {
            self.reset();
            true
        } else {
            self.cleaner.app_data.keep_failed(failed);
            false
        }
    }
}

} // verus!
