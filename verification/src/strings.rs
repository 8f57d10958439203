//! User-facing strings, kept in one place.

use vstd::prelude::*;

verus! {

/// Titles of the panes and popups.
pub struct Title {
    pub status: &'static str,
    pub log: &'static str,
    pub log_detail: &'static str,
    pub help: &'static str,
    pub blame: &'static str,
    pub confirm: &'static str,
    pub message: &'static str,
    pub file_history: &'static str,
    pub file_finder: &'static str,
}

impl Title {
    /// The titles the app shows.
    pub fn titles() -> (r: Title)
        ensures
            r.status@ == "Files (svn status)"@,
            r.log@ == "Log (svn log)"@,
            r.log_detail@ == "Revision details"@,
            r.help@ == "Help"@,
            r.blame@ == "Blame"@,
            r.confirm@ == "Confirm"@,
            r.message@ == "Message"@,
            r.file_history@ == "File history"@,
            r.file_finder@ == "Find file"@,
    {
        Title {
            status: "Files (svn status)",
            log: "Log (svn log)",
            log_detail: "Revision details",
            help: "Help",
            blame: "Blame",
            confirm: "Confirm",
            message: "Message",
            file_history: "File history",
            file_finder: "Find file",
        }
    }
}

/// Messages shown in popups and placeholders.
pub struct Msg {
    pub loading: &'static str,
    pub no_working_copy: &'static str,
    pub empty_log: &'static str,
    pub empty_status: &'static str,
    pub commit_all: &'static str,
    pub commit_staged: &'static str,
    pub revert_confirm: &'static str,
    pub update_confirm: &'static str,
    pub resolve_confirm: &'static str,
    pub update_to_rev_confirm: &'static str,
    pub add_done: &'static str,
    pub revert_done: &'static str,
    pub resolve_done: &'static str,
    pub commit_nothing_staged: &'static str,
    pub apply_patch_confirm: &'static str,
    pub delete_patch_confirm: &'static str,
    pub patch_deleted: &'static str,
    pub patch_saved: &'static str,
    pub patch_nothing_to_save: &'static str,
}

impl Msg {
    /// The messages the app shows.
    pub fn messages() -> (r: Msg)
        ensures
            r.loading@ == "Loading..."@,
            r.no_working_copy@ == "Error: not an SVN working copy (svn info failed)"@,
            r.empty_log@ == "No revisions found"@,
            r.empty_status@ == "Working copy is clean"@,
            r.commit_all@ == "Commit all changes?"@,
            r.commit_staged@ == "Commit staged changes?"@,
            r.revert_confirm@ == "Revert local changes? (discards modifications)"@,
            r.update_confirm@ == "Run svn update?"@,
            r.resolve_confirm@ == "Resolve conflict using the working copy version?"@,
            r.update_to_rev_confirm@ == "Update working copy to selected revision?"@,
            r.add_done@ == "Added to version control"@,
            r.revert_done@ == "Reverted"@,
            r.resolve_done@ == "Conflict resolved"@,
            r.commit_nothing_staged@ == "Nothing staged: stage files with space before committing"@,
            r.apply_patch_confirm@ == "Apply this patch to the working copy?"@,
            r.delete_patch_confirm@ == "Delete this patch file?"@,
            r.patch_deleted@ == "Patch deleted"@,
            r.patch_saved@ == "Patch saved"@,
            r.patch_nothing_to_save@ == "The working copy has no changes: nothing to save"@,
    {
        Msg {
            loading: "Loading...",
            no_working_copy: "Error: not an SVN working copy (svn info failed)",
            empty_log: "No revisions found",
            empty_status: "Working copy is clean",
            commit_all: "Commit all changes?",
            commit_staged: "Commit staged changes?",
            revert_confirm: "Revert local changes? (discards modifications)",
            update_confirm: "Run svn update?",
            resolve_confirm: "Resolve conflict using the working copy version?",
            update_to_rev_confirm: "Update working copy to selected revision?",
            add_done: "Added to version control",
            revert_done: "Reverted",
            resolve_done: "Conflict resolved",
            commit_nothing_staged: "Nothing staged: stage files with space before committing",
            apply_patch_confirm: "Apply this patch to the working copy?",
            delete_patch_confirm: "Delete this patch file?",
            patch_deleted: "Patch deleted",
            patch_saved: "Patch saved",
            patch_nothing_to_save: "The working copy has no changes: nothing to save",
        }
    }
}

} // verus!
