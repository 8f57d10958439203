//! What the svn background operations report back to the app.

use vstd::prelude::*;
use crate::models::{BlameLine, LogEntry, StatusEntry, SvnInfo};

verus! {

/// Result of a finished SVN background operation.
#[derive(Debug)]
pub enum AsyncSvnNotification {
    /// Working copy check at startup
    Info(Result<SvnInfo, String>),
    /// `svn --version --quiet` output (startup version gate)
    Version(Result<String, String>),
    /// Repository overview for the info popup (global `i` key): local +
    /// remote HEAD info. Boxed: two SvnInfo would make the enum huge.
    RepoInfo(Result<Box<(SvnInfo, Option<SvnInfo>)>, String>),
    Status(Result<Vec<StatusEntry>, String>),
    Diff { path: String, result: Result<String, String> },
    Log(Result<Vec<LogEntry>, String>),
    /// `svn log` restricted to a single file
    FileLog { path: String, result: Result<Vec<LogEntry>, String> },
    /// All versioned files in the working copy (`svn list -R`)
    ListFiles(Result<Vec<String>, String>),
    RevisionDiff { revision: u64, result: Result<String, String> },
    /// Combined diff of a revision range (`svn diff -r from-1:to`)
    RangeDiff { from: u64, to: u64, result: Result<String, String> },
    Blame { path: String, result: Result<Vec<BlameLine>, String> },
    Update(Result<String, String>),
    Commit(Result<String, String>),
    Add(Result<Vec<String>, String>),
    Revert(Result<Vec<String>, String>),
    Resolve(Result<String, String>),
    /// Working copy updated to a specific revision (svn update -r N)
    UpdateToRevision(Result<String, String>),
    /// Full-history search results (`svn log --search`); `pattern` is the
    /// search term the request was issued with (correlation: stale results
    /// for an older pattern must not overwrite a newer search)
    LogSearch { pattern: String, result: Result<Vec<LogEntry>, String> },
    /// Older revisions appended to the log list (pagination); `before_rev`
    /// is the revision the request was issued with (correlation, as above)
    LogAppend { before_rev: u64, result: Result<Vec<LogEntry>, String> },
    /// `svn diff` of the whole working copy, saved as a patch file
    CreatePatch(Result<String, String>),
    /// `svn patch <file>` applied to the working copy
    ApplyPatch(Result<String, String>),
}

} // verus!
