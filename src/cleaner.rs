//! A cleaning session for one bundle: identify it, find its processes, scan for
//! what it left behind, and account for its removal.

use crate::app_data::{association_list, AppData};
use crate::app_info::{bytes_of, manifest_failure, ManifestError};
use crate::app_process::{matching_processes, pid_list_of, AppProcess, RunningProcess};
use crate::log_receipt::receipts_of;
use crate::paths::{joined_path_of, path_join};
use vstd::prelude::*;

verus! {

/// What follows the bundle's name in the name of its receipt-export folder.
pub const EXPORT_FOLDER_SUFFIX: &'static str = "_bom_log";

/// The session's state.
#[derive(Debug, Clone)]
pub struct Cleaner {
    pub app_data: AppData,
}

impl Cleaner {
    /// A session with no bundle.
    pub fn new() -> (r: Self)
        ensures
            r.app_data.is_empty(),
    {
        Cleaner { app_data: AppData::empty() }
    }

    /// Start a session for the bundle at `path`, whose metadata file holds
    /// `metadata` when it exists, and record which processes of `snapshot` belong
    /// to it.
    pub fn new_app(path: &str, metadata: Option<&[u8]>, snapshot: &Vec<RunningProcess>) -> (r:
        Result<Self, ManifestError>)
        ensures
            match manifest_failure(path@, bytes_of(metadata)) {
                Some(e) => r == Err::<Cleaner, ManifestError>(e),
                None => r matches Ok(c) && {
                    &&& c.app_data.app.read_from(path@, bytes_of(metadata)->Some_0)
                    &&& c.app_data.app_process@.map_values(|p: AppProcess| p@)
                        == matching_processes(c.app_data.app, snapshot@)
                    &&& c.app_data.log.bom_file@.len() == 0
                    &&& c.app_data.associate_files@.len() == 0
                },
            },
    {
        let mut app_data = AppData::new(path, metadata)?;
        app_data.find_pid_and_command(snapshot);
        Ok(Cleaner { app_data })
    }

    /// Whether running processes were found, so that the user must be asked before
    /// going on.
    pub fn needs_confirmation(&self) -> (r: bool)
        ensures
            r == (self.app_data.app_process@.len() > 0),
    {
        self.app_data.app_process.len() > 0
    }

    /// The pid list to hand to a privileged termination request, given the user's
    /// answer: nothing when no process was found or the user declined.
    pub fn confirm_and_kill_process(&self, user_confirmed: bool) -> (r: Option<String>)
        ensures
            r is Some <==> (user_confirmed && self.app_data.app_process@.len() > 0),
            r matches Some(s) ==> s@ == pid_list_of(self.app_data.app_process@),
    {
        if !user_confirmed {
            return None;
        }
        AppProcess::pid_list(&self.app_data.app_process)
    }

    /// Record the scan's findings: the receipts among `receipt_listings` (the
    /// entries of each receipt directory) and the association list of a walk that
    /// visited `visited`, root by root.
    pub fn scan_app_data(&mut self, receipt_listings: &Vec<Vec<String>>, visited: &Vec<Vec<String>>)
        ensures
            final(self).app_data.log.bom_file.deep_view() == receipts_of(
                old(self).app_data.app,
                receipt_listings.deep_view(),
            ),
            final(self).app_data.associate_files.deep_view() == association_list(
                old(self).app_data.app,
                visited.deep_view(),
            ),
            final(self).app_data.app == old(self).app_data.app,
            final(self).app_data.app_process == old(self).app_data.app_process,
    {
        self.app_data.find_log_bom(receipt_listings);
        self.app_data.find_associate_files(visited);
    }

    /// The folder inside `log_dir` that receives the exported receipts.
    pub fn bom_log_folder(&self, log_dir: &str) -> (r: String)
        ensures
            r@ == joined_path_of(log_dir@, self.app_data.app.name@ + EXPORT_FOLDER_SUFFIX@),
    {
        let mut name = self.app_data.app.name.clone();
        name.append(EXPORT_FOLDER_SUFFIX);
        path_join(log_dir, name.as_str())
    }

    /// The paths to move to the trash: every associated path, the bundle included,
    /// in list order.
    pub fn removal_paths(&self) -> (r: Vec<String>)
        ensures
            r.deep_view() == self.app_data.associate_files.deep_view().map_values(
                |f: (Seq<char>, Seq<char>)| f.0,
            ),
    {
        let files = &self.app_data.associate_files;
        let mut out: Vec<String> = Vec::new();
        let mut i: usize = 0;
        while i < files.len()
            invariant
                i <= files@.len(),
                out.deep_view() == files.deep_view().subrange(0, i as int).map_values(
                    |f: (Seq<char>, Seq<char>)| f.0,
                ),
            decreases files@.len() - i,
        {
            let ghost before = out.deep_view();
            out.push(files[i].0.clone());
            i = i + 1;
            assert(out.deep_view() =~= before.push(files.deep_view()[i - 1].0));
            assert(out.deep_view() =~= files.deep_view().subrange(0, i as int).map_values(
                |f: (Seq<char>, Seq<char>)| f.0,
            ));
        }
        assert(files.deep_view().subrange(0, i as int) =~= files.deep_view());
        out
    }

    /// End the session: forget the bundle and everything found for it.
    pub fn reset(&mut self)
        ensures
            final(self).app_data.is_empty(),
    {
        self.app_data.reset();
    }
}

} // verus!
