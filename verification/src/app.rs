//! The application state: tabs, popup stack, the dispatch of component
//! requests and of finished background operations. Modeled on gitui's
//! `App`.
//!
//! The app decides; what it wants done outside (an svn command, a read or
//! write of a patch file) it hands out as an [`Effect`], and the result
//! comes back through [`App::handle_async`] or one of the `patch_*`
//! methods.

use vstd::prelude::*;
use crate::models::{BlameLine, LogEntry, SvnInfo};
use crate::popups::{popup_kind, popup_ok, popup_queue, popup_stepped, pushed_popup, DiffPopup, OutputPopup, Popup};
use crate::keys::{binds, key_match, Event, KeyAction};
use crate::status_tree::{selected_entry, selected_path};
use crate::diff_view::opt_text;
use crate::patches::PatchFile;
use crate::queue::{ConfirmAction, InternalEvent, NeedsUpdate, Queue, Tab};
use crate::log::LogState;
use crate::status_tree::{refreshed, PaneState};
use crate::commit::{history_set, CommitState};
use crate::svn::AsyncSvnNotification;
use crate::file_log::FileLogState;
use crate::file_finder::{ranked, refiltered, FinderState};
use crate::diff_view::{capped, content_lines, count_in_range, first_in_range, range_line, revision_line};
use crate::parser::{spec_parse_version, version_ge, MIN_SVN_VERSION};
use crate::log::log_updated;
use crate::status::{PaneFocus, StatusTab};
use crate::log::LogComponent;
use crate::patches::PatchesComponent;
use crate::text::{decimal, file_name, file_name_of, push_char, push_decimal, push_str, texts, trim, trimmed};
use crate::strings::Msg;
use crate::spans::{span_view, text_span, InfoSpan, Role};
use crate::status_tree::status_of;

verus! {

/// How many log entries one page loads.
pub const LOG_PAGE: usize = 50;

/// A command for the svn client, run in the background; its result comes
/// back as an `AsyncSvnNotification`.
#[derive(Debug)]
pub enum SvnCommand {
    /// `svn info` of the working copy (startup check)
    CheckInfo,
    /// `svn --version --quiet`
    Version,
    Status,
    /// The latest `n` log entries
    Log(usize),
    /// Full-history search
    LogSearch(String),
    /// `n` entries older than a revision
    LogMore(u64, usize),
    /// Diff of one path
    Diff(String),
    RevisionDiff(u64),
    /// Combined diff of revisions `from..=to`
    RangeDiff(u64, u64),
    Blame(String),
    /// The latest `n` log entries of a path
    FileLog(String, usize),
    /// All versioned files
    ListFiles,
    /// Local and HEAD info for the repo info popup
    RepoInfo,
    /// Diff of the whole working copy, to save as a patch
    CreatePatch,
    Add(Vec<String>),
    Revert(Vec<String>),
    Resolve(String),
    Update,
    UpdateToRevision(u64),
    ApplyPatch(String),
    /// Commit message and paths
    Commit(String, Vec<String>),
}

/// Outside work the app asks for.
#[derive(Debug)]
pub enum Effect {
    Svn(SvnCommand),
    /// Read the patch directory again (answer: [`App::patches_listed`])
    ListPatches,
    /// Delete this patch file (answer: [`App::patch_deleted`])
    DeletePatch(String),
    /// Save this diff as a new patch file (answer: [`App::patch_saved`])
    SavePatch(String),
    /// Look up the size of this patch file before a preview (answer:
    /// [`App::patch_stat`])
    StatPatch(String),
    /// Read this patch file for a preview (answer: [`App::patch_read`])
    ReadPatch(String),
}

/// An svn command by value.
pub enum CmdView {
    CheckInfo,
    Version,
    Status,
    Log(nat),
    LogSearch(Seq<char>),
    LogMore(u64, nat),
    Diff(Seq<char>),
    RevisionDiff(u64),
    RangeDiff(u64, u64),
    Blame(Seq<char>),
    FileLog(Seq<char>, nat),
    ListFiles,
    RepoInfo,
    CreatePatch,
    Add(Seq<Seq<char>>),
    Revert(Seq<Seq<char>>),
    Resolve(Seq<char>),
    Update,
    UpdateToRevision(u64),
    ApplyPatch(Seq<char>),
    Commit(Seq<char>, Seq<Seq<char>>),
}

/// An effect by value.
pub enum EffectView {
    Svn(CmdView),
    ListPatches,
    DeletePatch(Seq<char>),
    SavePatch(Seq<char>),
    StatPatch(Seq<char>),
    ReadPatch(Seq<char>),
}

pub open spec fn cmd_view(c: SvnCommand) -> CmdView {
    match c {
        SvnCommand::CheckInfo => CmdView::CheckInfo,
        SvnCommand::Version => CmdView::Version,
        SvnCommand::Status => CmdView::Status,
        SvnCommand::Log(n) => CmdView::Log(n as nat),
        SvnCommand::LogSearch(p) => CmdView::LogSearch(p@),
        SvnCommand::LogMore(r, n) => CmdView::LogMore(r, n as nat),
        SvnCommand::Diff(p) => CmdView::Diff(p@),
        SvnCommand::RevisionDiff(r) => CmdView::RevisionDiff(r),
        SvnCommand::RangeDiff(a, b) => CmdView::RangeDiff(a, b),
        SvnCommand::Blame(p) => CmdView::Blame(p@),
        SvnCommand::FileLog(p, n) => CmdView::FileLog(p@, n as nat),
        SvnCommand::ListFiles => CmdView::ListFiles,
        SvnCommand::RepoInfo => CmdView::RepoInfo,
        SvnCommand::CreatePatch => CmdView::CreatePatch,
        SvnCommand::Add(ps) => CmdView::Add(texts(ps@)),
        SvnCommand::Revert(ps) => CmdView::Revert(texts(ps@)),
        SvnCommand::Resolve(p) => CmdView::Resolve(p@),
        SvnCommand::Update => CmdView::Update,
        SvnCommand::UpdateToRevision(r) => CmdView::UpdateToRevision(r),
        SvnCommand::ApplyPatch(p) => CmdView::ApplyPatch(p@),
        SvnCommand::Commit(m, ps) => CmdView::Commit(m@, texts(ps@)),
    }
}

pub open spec fn effect_view(e: Effect) -> EffectView {
    match e {
        Effect::Svn(c) => EffectView::Svn(cmd_view(c)),
        Effect::ListPatches => EffectView::ListPatches,
        Effect::DeletePatch(p) => EffectView::DeletePatch(p@),
        Effect::SavePatch(d) => EffectView::SavePatch(d@),
        Effect::StatPatch(p) => EffectView::StatPatch(p@),
        Effect::ReadPatch(p) => EffectView::ReadPatch(p@),
    }
}

pub open spec fn effects_view(v: Seq<Effect>) -> Seq<EffectView> {
    v.map_values(|e: Effect| effect_view(e))
}

/// A diff request that turns into a fullscreen popup when it is loaded.
#[derive(Debug)]
pub enum PendingFullscreen {
    File(String),
    Revision(u64),
    /// Combined diff of revisions `from..=to`
    Range(u64, u64),
}

/// A pending fullscreen diff by value.
pub enum FullView {
    File(Seq<char>),
    Revision(u64),
    Range(u64, u64),
}

pub open spec fn full_view(p: Option<PendingFullscreen>) -> Option<FullView> {
    match p {
        Some(PendingFullscreen::File(s)) => Some(FullView::File(s@)),
        Some(PendingFullscreen::Revision(r)) => Some(FullView::Revision(r)),
        Some(PendingFullscreen::Range(a, b)) => Some(FullView::Range(a, b)),
        None => None,
    }
}

/// The value of the app.
pub struct AppView {
    pub status: StatusTab,
    pub log: crate::log::LogState,
    pub patches: crate::patches::PatchesState,
    pub tab: Tab,
    pub popups: Seq<Popup>,
    pub info: Option<SvnInfo>,
    pub version: Option<Seq<char>>,
    pub cwd: Option<Seq<char>>,
    pub pending: nat,
    pub quitting: bool,
    pub fatal: Option<Seq<char>>,
    pub spinner: nat,
    pub fullscreen: Option<FullView>,
    pub queue: Seq<InternalEvent>,
    pub effects: Seq<EffectView>,
}

/// The text of an optional string.
pub open spec fn opt_seq(s: Option<String>) -> Option<Seq<char>> {
    match s {
        Some(t) => Some(t@),
        None => None,
    }
}

/// `n + k`, kept within `usize`.
pub open spec fn bumped(n: nat, k: nat) -> nat {
    if n + k <= usize::MAX {
        n + k
    } else {
        usize::MAX as nat
    }
}

/// The working copy shown in update confirmations: the root path from
/// `svn info` when it is known and not empty, else the directory the app
/// was started on, else `?`.
pub open spec fn wc_label(info: Option<SvnInfo>, cwd: Option<Seq<char>>) -> Seq<char> {
    if info is Some && info.unwrap().wc_root@.len() > 0 {
        info.unwrap().wc_root@
    } else {
        match cwd {
            Some(c) => c,
            None => "?"@,
        }
    }
}

/// The target branch named in a commit confirmation.
pub open spec fn branch_text(info: Option<SvnInfo>) -> Seq<char> {
    match info {
        Some(i) => i.spec_branch_label(),
        None => "(unknown branch)"@,
    }
}

/// The listed files of a commit confirmation: one `  S path` line each.
pub open spec fn listed(t: Seq<(char, Seq<char>)>) -> Seq<char>
    decreases t.len(),
{
    if t.len() == 0 {
        Seq::empty()
    } else {
        listed(t.drop_last()) + "  "@ + seq![t.last().0, ' '] + t.last().1 + "\n"@
    }
}

/// How many files a commit confirmation lists by name.
pub const MAX_LISTED: usize = 8;

/// The commit confirmation: what is committed, the target branch, the
/// files (at most [`MAX_LISTED`] by name, then a count of the rest) and
/// the message.
pub open spec fn commit_text(branch: Seq<char>, t: Seq<(char, Seq<char>)>, message: Seq<char>) -> Seq<char> {
    let files = if t.len() == 0 {
        Seq::empty()
    } else {
        "\nFiles:\n"@ + listed(t.take(if t.len() < MAX_LISTED { t.len() as int } else { MAX_LISTED as int }))
            + if t.len() > MAX_LISTED {
            "  \u{2026} and "@ + decimal((t.len() - MAX_LISTED) as nat) + " more\n"@
        } else {
            Seq::empty()
        }
    };
    "Commit staged changes?"@ + " ("@ + decimal(t.len()) + " files)\nTarget branch: "@ + branch + "\n"@ + files
        + "\n\""@ + trim(message) + "\""@
}

/// What a commit would commit: the explicit `paths` with their status
/// chars (` ` for a path without a status entry), or else the staged
/// paths in path order with theirs (`?` without an entry).
pub open spec fn commit_targets(status: StatusTab, paths: Seq<Seq<char>>, t: Seq<(char, Seq<char>)>) -> bool {
    let es = status.tree@.entries;
    if paths.len() > 0 {
        t == paths.map_values(|p: Seq<char>| (status_of(es, p, ' '), p))
    } else {
        exists|order: Seq<Seq<char>>|
            {
                &&& order.to_set() == status.tree@.staged
                &&& crate::path_set::strictly_sorted(order)
                &&& t == order.map_values(|p: Seq<char>| (status_of(es, p, '?'), p))
            }
    }
}

/// The pairs by value.
pub open spec fn target_views(v: Seq<(char, String)>) -> Seq<(char, Seq<char>)> {
    v.map_values(|x: (char, String)| (x.0, x.1@))
}

/// The paths joined with `, `.
pub open spec fn comma_joined(ps: Seq<Seq<char>>) -> Seq<char>
    decreases ps.len(),
{
    if ps.len() == 0 {
        Seq::empty()
    } else if ps.len() == 1 {
        ps[0]
    } else {
        comma_joined(ps.drop_last()) + ", "@ + ps.last()
    }
}

/// The question asked before running `action` (a commit's is
/// [`commit_text`], over the files it would commit).
pub open spec fn confirm_text(a: AppView, action: ConfirmAction, text: Seq<char>) -> bool {
    match action {
        ConfirmAction::Commit { message, paths } => exists|t: Seq<(char, Seq<char>)>|
            commit_targets(a.status, texts(paths@), t) && text == commit_text(branch_text(a.info), t, message@),
        ConfirmAction::Revert(ps) => text == "Revert local changes? (discards modifications)"@ + " ("@ + comma_joined(
            texts(ps@),
        ) + ")"@,
        ConfirmAction::Update => text == "Run svn update?"@ + "\nWorking copy: "@ + wc_label(a.info, a.cwd),
        ConfirmAction::Resolve(p) => text == "Resolve conflict using the working copy version?"@ + " ("@ + p@ + ")"@,
        ConfirmAction::UpdateToRevision(r) => text == "Update working copy to selected revision?"@ + " (r"@ + decimal(
            r as nat,
        ) + ")\nWorking copy: "@ + wc_label(a.info, a.cwd),
        ConfirmAction::ApplyPatch(p) => text == "Apply this patch to the working copy?"@ + "\n"@ + file_name(p@),
        ConfirmAction::DeletePatch(p) => text == "Delete this patch file?"@ + "\n"@ + file_name(p@),
    }
}

/// `b` is `a` with one more message popup on top, saying `text`.
pub open spec fn message_shown(a: AppView, b: AppView, text: Seq<char>, is_error: bool) -> bool {
    &&& b == (AppView { popups: b.popups, ..a })
    &&& pushed_popup(a.popups, b.popups)
    &&& b.popups.last() matches Popup::Msg(m) && m.message@ == text && m.is_error == is_error
}

/// `b` is `a` asking for the svn command `c`.
pub open spec fn ran(a: AppView, b: AppView, c: CmdView) -> bool {
    b == (AppView { pending: bumped(a.pending, 1), effects: a.effects.push(EffectView::Svn(c)), ..a })
}

/// What running the confirmed `action` does (see [`App::perform_confirmed`]).
pub open spec fn performed(a: AppView, b: AppView, action: ConfirmAction) -> bool {
    match action {
        ConfirmAction::Commit { message, paths } => {
            if paths@.len() == 0 && a.status.tree@.staged.len() == 0 {
                &&& b == (AppView { popups: b.popups, ..a })
                &&& pushed_popup(a.popups, b.popups)
                &&& b.popups.last() matches Popup::Msg(m) && m.is_error && m.message@
                    == "Nothing staged: stage files with space before committing"@
            } else {
                &&& b == (AppView {
                    pending: bumped(a.pending, 1),
                    effects: b.effects,
                    ..a
                })
                &&& b.effects.drop_last() == a.effects
                &&& b.effects.len() == a.effects.len() + 1
                &&& b.effects.last() matches EffectView::Svn(CmdView::Commit(m, targets))
                    && m == message@ && (paths@.len() > 0 ==> targets == texts(paths@)) && (paths@.len() == 0
                    ==> targets.to_set() == a.status.tree@.staged && crate::path_set::strictly_sorted(
                    targets,
                ))
            }
        },
        ConfirmAction::DeletePatch(path) => b == (AppView {
            effects: a.effects.push(EffectView::DeletePatch(path@)),
            ..a
        }),
        ConfirmAction::Revert(ps) => ran(a, b, CmdView::Revert(texts(ps@))),
        ConfirmAction::Update => ran(a, b, CmdView::Update),
        ConfirmAction::Resolve(p) => ran(a, b, CmdView::Resolve(p@)),
        ConfirmAction::UpdateToRevision(r) => ran(a, b, CmdView::UpdateToRevision(r)),
        ConfirmAction::ApplyPatch(p) => ran(a, b, CmdView::ApplyPatch(p@)),
    }
}

/// What asking for confirmation of `action` does (see [`App::confirm`]).
pub open spec fn asked_confirm(a: AppView, b: AppView, action: ConfirmAction) -> bool {
    &&& (action matches ConfirmAction::Commit { message, paths } && trim(message@).len() == 0) ==> message_shown(
        a,
        b,
        "Commit message is empty"@,
        true,
    )
    &&& (action matches ConfirmAction::Commit { message, paths } && trim(message@).len() > 0 && paths@.len() == 0
        && a.status.tree@.staged.len() == 0) ==> message_shown(
        a,
        b,
        "Nothing staged: stage files with space before committing"@,
        true,
    )
    &&& !(action matches ConfirmAction::Commit { message, paths } && (trim(message@).len() == 0 || (paths@.len()
        == 0 && a.status.tree@.staged.len() == 0))) ==> {
        &&& b == (AppView { popups: b.popups, ..a })
        &&& pushed_popup(a.popups, b.popups)
        &&& b.popups.last() matches Popup::Confirm(c) && c.action() == Some(action) && confirm_text(
            a,
            action,
            c.message_view(),
        )
    }
}

/// The smallest of the revisions.
pub open spec fn seq_min(s: Seq<u64>) -> u64
    decreases s.len(),
{
    if s.len() <= 1 {
        s[0]
    } else {
        let m = seq_min(s.drop_last());
        if s.last() < m { s.last() } else { m }
    }
}

/// The largest of the revisions.
pub open spec fn seq_max(s: Seq<u64>) -> u64
    decreases s.len(),
{
    if s.len() <= 1 {
        s[0]
    } else {
        let m = seq_max(s.drop_last());
        if s.last() > m { s.last() } else { m }
    }
}

/// The oldest loaded revision (1 with none loaded).
pub open spec fn oldest_loaded(l: LogState) -> u64 {
    if l.entries.len() == 0 {
        1
    } else {
        l.entries.last().revision
    }
}

/// `b` is `a` with the file history popup of `path` open and its log
/// asked for.
pub open spec fn history_opened(a: AppView, b: AppView, path: Seq<char>) -> bool {
    &&& b == (AppView {
        popups: b.popups,
        pending: bumped(a.pending, 1),
        effects: a.effects.push(EffectView::Svn(CmdView::FileLog(path, LOG_PAGE as nat))),
        ..a
    })
    &&& pushed_popup(a.popups, b.popups)
    &&& b.popups.last() matches Popup::FileLog(f) && f@.path == path && f@.pending
}

/// `b` is `a` with one more popup on top, satisfying `is_new`.
pub open spec fn popup_opened(a: AppView, b: AppView) -> bool {
    b == (AppView { popups: b.popups, ..a }) && pushed_popup(a.popups, b.popups)
}

/// What the app does with a component's request `ev`.
pub open spec fn internal_after(a: AppView, b: AppView, ev: InternalEvent) -> bool {
    let t = a.status.tree@;
    match ev {
        InternalEvent::Update(f) => {
            let st = f.0 & 0b0010 == 0b0010;
            let lg = f.0 & 0b0100 == 0b0100;
            let e1 = if st { a.effects.push(EffectView::Svn(CmdView::Status)) } else { a.effects };
            let p1 = if st { bumped(a.pending, 1) } else { a.pending };
            b == (AppView {
                effects: if lg { e1.push(EffectView::Svn(CmdView::Log(LOG_PAGE as nat))) } else { e1 },
                pending: if lg { bumped(p1, 1) } else { p1 },
                ..a
            })
        },
        InternalEvent::ShowInfoMsg(m) => message_shown(a, b, m@, false),
        InternalEvent::OpenHelp => popup_opened(a, b) && (b.popups.last() matches Popup::Help(h) && h.scroll == 0),
        InternalEvent::ClosePopup => b == (AppView {
            popups: if a.popups.len() > 0 { a.popups.drop_last() } else { a.popups },
            ..a
        }),
        InternalEvent::OpenCommit => {
            &&& b == (AppView { status: b.status, ..a })
            &&& b.status.focus == PaneFocus::Commit
            &&& b.status.tree@ == (PaneState { focused: false, ..t })
            &&& b.status.commit@ == (CommitState { focused: true, ..a.status.commit@ })
            &&& crate::status::diff_refocused(a.status.diff, b.status.diff, false)
            &&& b.status.last_diff_requested == a.status.last_diff_requested
        },
        InternalEvent::OpenLogSearch => popup_opened(a, b) && (b.popups.last() matches Popup::LogSearch(l) && l.query()
            == a.log.filter),
        InternalEvent::LogSearchInput(text) => b == (AppView {
            log: LogState { search: None, filter: text@, selection: 0, ..a.log },
            ..a
        }),
        InternalEvent::OpenStatusFilter => popup_opened(a, b) && (b.popups.last() matches Popup::StatusFilter(f)
            && f.query() == t.filter && f.initial() == t.filter),
        InternalEvent::StatusFilterInput(text) => {
            &&& b == (AppView { status: b.status, ..a })
            &&& b.status.tree@ == refreshed(PaneState { filter: text@, ..t }, selected_path(t))
            &&& b.status.diff == a.status.diff && b.status.commit@ == a.status.commit@
            &&& b.status.focus == a.status.focus && b.status.last_diff_requested == a.status.last_diff_requested
        },
        InternalEvent::SearchLog(pattern) => b == (AppView {
            log: LogState { search: Some(pattern@), ..a.log },
            pending: bumped(a.pending, 1),
            effects: a.effects.push(EffectView::Svn(CmdView::LogSearch(pattern@))),
            ..a
        }),
        InternalEvent::LogLoadMore => if oldest_loaded(a.log) > 1 {
            ran(a, b, CmdView::LogMore(oldest_loaded(a.log), LOG_PAGE as nat))
        } else {
            b == a
        },
        InternalEvent::ShowCommitInfo(e) => popup_opened(a, b) && (b.popups.last() matches Popup::Output(o)
            && o.title@ == "Commit r"@ + decimal(e.revision as nat) && crate::spans::lines_view(o.lines@)
            == crate::log::commit_info(e)),
        InternalEvent::Confirm(action) => asked_confirm(a, b, action),
        InternalEvent::Confirmed(action) => performed(a, b, action),
        InternalEvent::SwitchTab(tab) => b == (AppView {
            tab,
            effects: if tab == Tab::Patches { a.effects.push(EffectView::ListPatches) } else { a.effects },
            ..a
        }),
        InternalEvent::RefreshStatus => ran(a, b, CmdView::Status),
        InternalEvent::AddFiles(ps) => if ps@.len() > 0 {
            ran(a, b, CmdView::Add(texts(ps@)))
        } else {
            b == a
        },
        InternalEvent::RequestFileDiff => match (selected_path(t), selected_entry(t)) {
            (Some(p), Some(_)) => b == (AppView {
                fullscreen: Some(FullView::File(p)),
                pending: bumped(a.pending, 1),
                effects: a.effects.push(EffectView::Svn(CmdView::Diff(p))),
                ..a
            }),
            _ => b == a,
        },
        InternalEvent::RequestBlame(path) => if status_of(t.entries, path@, ' ') == '?' {
            message_shown(a, b, "svn blame: file is not under version control"@, true)
        } else {
            &&& b == (AppView {
                popups: b.popups,
                pending: bumped(a.pending, 1),
                effects: a.effects.push(EffectView::Svn(CmdView::Blame(path@))),
                ..a
            })
            &&& pushed_popup(a.popups, b.popups)
            &&& b.popups.last() matches Popup::Blame(bp) && bp.path@ == path@ && bp.pending
        },
        InternalEvent::RequestRevisionDiff(rev) => b == (AppView {
            fullscreen: Some(FullView::Revision(rev)),
            pending: bumped(a.pending, 1),
            effects: a.effects.push(EffectView::Svn(CmdView::RevisionDiff(rev))),
            ..a
        }),
        InternalEvent::RequestRangeDiff(revs) => if revs@.len() > 0 {
            b == (AppView {
                fullscreen: Some(FullView::Range(seq_min(revs@), seq_max(revs@))),
                pending: bumped(a.pending, 1),
                effects: a.effects.push(EffectView::Svn(CmdView::RangeDiff(seq_min(revs@), seq_max(revs@)))),
                ..a
            })
        } else {
            b == a
        },
        InternalEvent::RequestFileHistory => match selected_entry(t) {
            Some(e) => if !e.is_dir && e.status == '?' {
                message_shown(a, b, "svn log: file is not under version control"@, true)
            } else if !e.is_dir {
                history_opened(a, b, e.path@)
            } else {
                b == a
            },
            None => b == a,
        },
        InternalEvent::OpenFileHistory(path) => history_opened(a, b, path@),
        InternalEvent::OpenFileFinder => {
            &&& b == (AppView {
                popups: b.popups,
                pending: bumped(a.pending, 1),
                effects: a.effects.push(EffectView::Svn(CmdView::ListFiles)),
                ..a
            })
            &&& pushed_popup(a.popups, b.popups)
            &&& b.popups.last() matches Popup::FileFinder(f) && f@.pending && f@.query.len() == 0
        },
        InternalEvent::PreviewPatch(path) => b == (AppView {
            effects: a.effects.push(EffectView::StatPatch(path@)),
            ..a
        }),
    }
}

/// What asking for the selected file's diff does (see
/// [`App::maybe_request_diff`]).
pub open spec fn diff_requested(a: AppView, b: AppView) -> bool {
    &&& a.tab != Tab::Status ==> b == a
    &&& a.tab == Tab::Status ==> {
        let t = a.status.tree@;
        let asks = selected_entry(t) is Some && opt_text(a.status.last_diff_requested)
            != selected_path(t);
        &&& b == (AppView {
            status: b.status,
            pending: b.pending,
            effects: b.effects,
            ..a
        })
        &&& b.status.tree@ == t
        &&& b.status.commit@ == a.status.commit@
        &&& b.status.focus == a.status.focus
        &&& asks ==> b.effects == a.effects.push(
            EffectView::Svn(CmdView::Diff(selected_path(t).unwrap())),
        ) && b.pending == bumped(a.pending, 1)
        &&& !asks ==> b.effects == a.effects && b.pending == a.pending
    }
}

/// What `{:?}` writes for a string: Rust's debug quoting.
pub uninterp spec fn str_debug(s: Seq<char>) -> Seq<char>;

/// `<str as Debug>::fmt`, through `format!("{:?}", s)`: the result is
/// named [`str_debug`] (quotes around the text, escapes inside).
#[verifier::external_body]
fn debug_quoted(s: &str) -> (r: String)
    ensures
        r@ == str_debug(s@),
{
    format!("{:?}", s)
}

/// One less outstanding operation (not below zero).
pub open spec fn dec(n: nat) -> nat {
    if n > 0 {
        (n - 1) as nat
    } else {
        0
    }
}

/// `major.minor.patch`.
pub open spec fn version_text(v: (u32, u32, u32)) -> Seq<char> {
    decimal(v.0 as nat) + "."@ + decimal(v.1 as nat) + "."@ + decimal(v.2 as nat)
}

/// The warning for a client older than [`MIN_SVN_VERSION`].
pub open spec fn too_old_text(found: Seq<char>) -> Seq<char> {
    "svn client is too old: found "@ + found + ", need >= "@ + version_text(MIN_SVN_VERSION)
        + "\n(svn log --search needs 1.8, svn patch needs 1.7)\nsvnui may misbehave; please upgrade subversion"@
}

/// The version gate: the client's version is kept; one older than
/// [`MIN_SVN_VERSION`], or output that does not parse, is warned about
/// (not fatal). A failing version query says nothing.
pub open spec fn version_checked(a: AppView, b: AppView, result: Result<String, String>) -> bool {
    match result {
        Ok(text) => {
            let ver = spec_parse_version(text@);
            let a1 = AppView {
                version: match ver {
                    Some(v) => Some(version_text(v)),
                    None => None,
                },
                ..a
            };
            if ver is Some && version_ge(ver.unwrap(), MIN_SVN_VERSION) {
                b == a1
            } else {
                message_shown(
                    a1,
                    b,
                    too_old_text(
                        match ver {
                            Some(v) => version_text(v),
                            None => "unparseable "@ + str_debug(trim(text@)),
                        },
                    ),
                    true,
                )
            }
        },
        Err(_) => b == a,
    }
}

/// The working-copy check: on success the info is kept and the status
/// and the log load; on failure the error is fatal (the app quits once
/// the message is dismissed).
pub open spec fn info_checked(a: AppView, b: AppView, result: Result<SvnInfo, String>) -> bool {
    match result {
        Ok(info) => b == (AppView {
            info: Some(info),
            pending: bumped(bumped(a.pending, 1), 1),
            effects: a.effects.push(EffectView::Svn(CmdView::Status)).push(
                EffectView::Svn(CmdView::Log(LOG_PAGE as nat)),
            ),
            ..a
        }),
        Err(e) => {
            let msg = "Error: not an SVN working copy (svn info failed)"@ + "\n"@ + e@;
            message_shown(AppView { fatal: Some(msg), ..a }, b, msg, true)
        },
    }
}

/// `b` is `a` after [`App::refresh_after_op`].
pub open spec fn refreshed_after(a: AppView, b: AppView) -> bool {
    if a.tab == Tab::Log {
        b == (AppView {
            pending: bumped(bumped(a.pending, 1), 1),
            effects: a.effects.push(EffectView::Svn(CmdView::Status)).push(
                EffectView::Svn(CmdView::Log(LOG_PAGE as nat)),
            ),
            ..a
        })
    } else {
        ran(a, b, CmdView::Status)
    }
}

/// `b` is `a` with one more output popup titled `title` on top.
pub open spec fn output_shown(a: AppView, b: AppView, title: Seq<char>) -> bool {
    popup_opened(a, b) && (b.popups.last() matches Popup::Output(o) && o.title@ == title)
}

/// An operation that changed the working copy finished: its output, or
/// its error, then a reload.
pub open spec fn op_finished(a: AppView, b: AppView, title: Seq<char>, what: Seq<char>, result: Result<String, String>) -> bool {
    exists|m: AppView|
        {
            &&& match result {
                Ok(_) => output_shown(a, m, title),
                Err(e) => message_shown(a, m, what + ": "@ + e@, true),
            }
            &&& #[trigger] refreshed_after(m, b)
        }
}

/// The summaries of the entries' messages that are not blank, in order.
pub open spec fn summaries(es: Seq<LogEntry>) -> Seq<Seq<char>>
    decreases es.len(),
{
    if es.len() == 0 {
        Seq::empty()
    } else {
        let r = summaries(es.drop_last());
        let m = crate::models::message_summary(es.last().message@);
        if m.len() > 0 {
            r.push(m)
        } else {
            r
        }
    }
}

/// The latest log arrived: it replaces the list (leaving search mode),
/// and stocks the commit bar's recent-message picker.
pub open spec fn log_loaded(a: AppView, b: AppView, result: Result<Vec<LogEntry>, String>) -> bool {
    match result {
        Ok(es) => {
            &&& b == (AppView {
                status: b.status,
                log: log_updated(crate::log::LogState { search: None, ..a.log }, es@),
                ..a
            })
            &&& b.status.commit@ == history_set(a.status.commit@, summaries(es@))
            &&& b.status.tree@ == a.status.tree@ && b.status.diff == a.status.diff
            &&& b.status.focus == a.status.focus && b.status.last_diff_requested == a.status.last_diff_requested
        },
        Err(e) => message_shown(a, b, "svn log: "@ + e@, true),
    }
}

/// A full-history search finished. A result for a pattern that is no
/// longer the active search (superseded, or search left) is dropped.
pub open spec fn log_searched(a: AppView, b: AppView, pattern: Seq<char>, result: Result<Vec<LogEntry>, String>) -> bool {
    if a.log.search != Some(pattern) {
        b == a
    } else {
        match result {
            Ok(es) => b == (AppView { log: log_updated(a.log, es@), ..a }),
            Err(e) => message_shown(
                AppView { log: crate::log::LogState { search: None, ..a.log }, ..a },
                b,
                "svn log --search: "@ + e@,
                true,
            ),
        }
    }
}

/// Older revisions arrived. They are appended only while the list is
/// exactly where they were asked from (no search, same oldest revision).
pub open spec fn log_appended(a: AppView, b: AppView, before: u64, result: Result<Vec<LogEntry>, String>) -> bool {
    if a.log.search is Some || a.log.entries.len() == 0 || a.log.entries.last().revision != before {
        b == a
    } else {
        match result {
            Ok(es) => b == (AppView {
                log: crate::log::LogState { loading_more: false, entries: a.log.entries + es@, ..a.log },
                ..a
            }),
            Err(e) => message_shown(
                AppView { log: crate::log::LogState { loading_more: false, ..a.log }, ..a },
                b,
                "svn log: "@ + e@,
                true,
            ),
        }
    }
}

/// `p` is the history popup of `path`.
pub open spec fn is_history_of(p: Popup, path: Seq<char>) -> bool {
    p matches Popup::FileLog(f) && f@.path == path
}

/// `p` is the blame popup of `path`.
pub open spec fn is_blame_of(p: Popup, path: Seq<char>) -> bool {
    p matches Popup::Blame(bp) && bp.path@ == path
}

/// `p` is a file finder.
pub open spec fn is_finder(p: Popup) -> bool {
    p is FileFinder
}

/// The topmost history popup of `path` in the stack, or -1.
pub open spec fn top_history(ps: Seq<Popup>, path: Seq<char>) -> int
    decreases ps.len(),
{
    if ps.len() == 0 {
        -1
    } else if is_history_of(ps.last(), path) {
        ps.len() - 1
    } else {
        top_history(ps.drop_last(), path)
    }
}

/// The topmost blame popup of `path` in the stack, or -1.
pub open spec fn top_blame(ps: Seq<Popup>, path: Seq<char>) -> int
    decreases ps.len(),
{
    if ps.len() == 0 {
        -1
    } else if is_blame_of(ps.last(), path) {
        ps.len() - 1
    } else {
        top_blame(ps.drop_last(), path)
    }
}

/// The topmost file finder in the stack, or -1.
pub open spec fn top_finder(ps: Seq<Popup>) -> int
    decreases ps.len(),
{
    if ps.len() == 0 {
        -1
    } else if is_finder(ps.last()) {
        ps.len() - 1
    } else {
        top_finder(ps.drop_last())
    }
}

/// The stacks `a` and `b` differ at most at `k`.
pub open spec fn same_but(a: Seq<Popup>, b: Seq<Popup>, k: int) -> bool {
    &&& a.len() == b.len()
    &&& forall|i: int| 0 <= i < a.len() && i != k ==> #[trigger] b[i] == a[i]
}

/// The history popup `f` after its log arrived.
pub open spec fn history_loaded(f: FileLogState, es: Seq<LogEntry>) -> FileLogState {
    FileLogState {
        pending: false,
        entries: es,
        selection: if f.selection < es.len() {
            f.selection
        } else if es.len() == 0 {
            0
        } else {
            es.len() - 1
        },
        ..f
    }
}

/// A file's history arrived: the topmost history popup of that path
/// shows it; on failure it stops loading and the error is shown.
pub open spec fn history_arrived(a: AppView, b: AppView, path: Seq<char>, result: Result<Vec<LogEntry>, String>) -> bool {
    let k = top_history(a.popups, path);
    match result {
        Ok(es) => if k < 0 {
            b == a
        } else {
            &&& b == (AppView { popups: b.popups, ..a })
            &&& same_but(a.popups, b.popups, k)
            &&& a.popups[k] matches Popup::FileLog(f1) && b.popups[k] matches Popup::FileLog(f2) && f2@
                == history_loaded(f1@, es@)
        },
        Err(e) => {
            &&& b == (AppView { popups: b.popups, ..a })
            &&& b.popups.len() == a.popups.len() + 1
            &&& same_but(a.popups, b.popups.drop_last(), k)
            &&& k >= 0 ==> (a.popups[k] matches Popup::FileLog(f1) && b.popups[k] matches Popup::FileLog(f2) && f2@
                == FileLogState { pending: false, ..f1@ })
            &&& b.popups.last() matches Popup::Msg(m) && m.is_error && m.message@ == "svn log "@ + path + ": "@ + e@
        },
    }
}

/// The versioned file list arrived: the topmost file finder shows it
/// (ranked for its query); on failure it stops loading and the error is
/// shown.
pub open spec fn files_arrived(a: AppView, b: AppView, result: Result<Vec<String>, String>) -> bool {
    let k = top_finder(a.popups);
    match result {
        Ok(files) => if k < 0 {
            b == a
        } else {
            &&& b == (AppView { popups: b.popups, ..a })
            &&& same_but(a.popups, b.popups, k)
            &&& a.popups[k] matches Popup::FileFinder(f1) && b.popups[k] matches Popup::FileFinder(f2) && exists|
                r: Seq<int>,
            |
                ranked(texts(files@), f1@.query, r) && f2@ == refiltered(
                    FinderState { files: texts(files@), pending: false, ..f1@ },
                    f1@.query,
                    r,
                )
        },
        Err(e) => {
            &&& b == (AppView { popups: b.popups, ..a })
            &&& b.popups.len() == a.popups.len() + 1
            &&& same_but(a.popups, b.popups.drop_last(), k)
            &&& k >= 0 ==> (a.popups[k] matches Popup::FileFinder(f1) && b.popups[k] matches Popup::FileFinder(f2)
                && f2@ == FinderState { pending: false, ..f1@ })
            &&& b.popups.last() matches Popup::Msg(m) && m.is_error && m.message@ == "svn list: "@ + e@
        },
    }
}

/// A blame arrived: the topmost blame popup of that path shows it; on
/// failure it stops loading and the error is shown.
pub open spec fn blame_arrived(a: AppView, b: AppView, path: Seq<char>, result: Result<Vec<BlameLine>, String>) -> bool {
    let k = top_blame(a.popups, path);
    match result {
        Ok(lines) => if k < 0 {
            b == a
        } else {
            &&& b == (AppView { popups: b.popups, ..a })
            &&& same_but(a.popups, b.popups, k)
            &&& a.popups[k] matches Popup::Blame(b1) && b.popups[k] matches Popup::Blame(b2) && b2.lines@ == lines@
                && !b2.pending && b2.path == b1.path
        },
        Err(e) => {
            &&& b == (AppView { popups: b.popups, ..a })
            &&& b.popups.len() == a.popups.len() + 1
            &&& same_but(a.popups, b.popups.drop_last(), k)
            &&& k >= 0 ==> (a.popups[k] matches Popup::Blame(b1) && b.popups[k] matches Popup::Blame(b2) && !b2.pending
                && b2.path == b1.path && b2.lines == b1.lines)
            &&& b.popups.last() matches Popup::Msg(m) && m.is_error && m.message@ == "svn blame "@ + path + ": "@ + e@
        },
    }
}

/// `b` is `a` with the fullscreen diff popup titled `title` of `content`
/// under the header `header` on top.
pub open spec fn diff_shown(a: AppView, b: AppView, title: Seq<char>, content: Seq<char>, header: Seq<Seq<char>>) -> bool {
    &&& popup_opened(a, b)
    &&& b.popups.last() matches Popup::Diff(d) && d.view.title@ == title && d.view.search_enabled
        && d.view.parsed.spec_lines() == content_lines(content).1 && d.view.header_lines() == header.take(
        if header.len() <= crate::diff_view::DIFF_HEADER_MAX {
            header.len() as int
        } else {
            crate::diff_view::DIFF_HEADER_MAX as int
        },
    )
}

/// A file's diff arrived: the status tab shows it if it is still the
/// selected file; if it was asked for fullscreen, it also opens there.
pub open spec fn file_diff_arrived(a: AppView, b: AppView, path: Seq<char>, result: Result<String, String>) -> bool {
    let full = a.fullscreen == Some(FullView::File(path));
    match result {
        Ok(content) => exists|m: AppView|
            {
                &&& m == (AppView { status: m.status, ..a })
                &&& #[trigger] crate::status::diff_applied(a.status, m.status, path, content@)
                &&& full ==> diff_shown(AppView { fullscreen: None, ..m }, b, path, content@, Seq::empty())
                &&& !full ==> b == m
            },
        Err(e) => message_shown(
            if full {
                AppView { fullscreen: None, ..a }
            } else {
                a
            },
            b,
            "svn diff "@ + path + ": "@ + e@,
            true,
        ),
    }
}

/// The header of a range diff (see `diff_view::range_header`).
pub open spec fn range_header_lines(es: Seq<LogEntry>, from: u64, to: u64) -> Seq<Seq<char>> {
    let first = seq![range_line(from, to, count_in_range(es, from, to))];
    match first_in_range(es, from, to) {
        Some(i) => capped(first, es[i].message@),
        None => first,
    }
}

/// The first loaded entry of revision `rev`, if any.
pub open spec fn entry_of(es: Seq<LogEntry>, rev: u64) -> Option<int>
    decreases es.len(),
{
    if es.len() == 0 {
        None
    } else {
        match entry_of(es.drop_last(), rev) {
            Some(i) => Some(i),
            None => if es.last().revision == rev {
                Some(es.len() - 1)
            } else {
                None
            },
        }
    }
}

/// A revision range's diff arrived: it opens fullscreen, under the
/// range's header, if it is still the one asked for.
pub open spec fn range_diff_arrived(a: AppView, b: AppView, from: u64, to: u64, result: Result<String, String>) -> bool {
    let full = a.fullscreen == Some(FullView::Range(from, to));
    match result {
        Ok(content) => if full {
            diff_shown(
                AppView { fullscreen: None, ..a },
                b,
                "Diff r"@ + decimal(from as nat) + "..r"@ + decimal(to as nat),
                content@,
                range_header_lines(a.log.entries, from, to),
            )
        } else {
            b == a
        },
        Err(e) => message_shown(
            if full {
                AppView { fullscreen: None, ..a }
            } else {
                a
            },
            b,
            "svn diff -r "@ + decimal(from as nat) + ":"@ + decimal(to as nat) + ": "@ + e@,
            true,
        ),
    }
}

/// A revision's diff arrived: it opens fullscreen if it is still the one
/// asked for, with the commit's info when the revision is in the loaded
/// log.
pub open spec fn revision_diff_arrived(a: AppView, b: AppView, rev: u64, result: Result<String, String>) -> bool {
    let full = a.fullscreen == Some(FullView::Revision(rev));
    match result {
        Ok(content) => if full {
            diff_shown(
                AppView { fullscreen: None, ..a },
                b,
                "Diff r"@ + decimal(rev as nat),
                content@,
                match entry_of(a.log.entries, rev) {
                    Some(i) => capped(seq![revision_line(a.log.entries[i]@)], a.log.entries[i].message@),
                    None => Seq::empty(),
                },
            )
        } else {
            b == a
        },
        Err(e) => message_shown(
            if full {
                AppView { fullscreen: None, ..a }
            } else {
                a
            },
            b,
            "svn diff -c "@ + decimal(rev as nat) + ": "@ + e@,
            true,
        ),
    }
}

/// The effects after a reload (see [`refreshed_after`]).
pub open spec fn refresh_effects(a: AppView) -> Seq<EffectView> {
    if a.tab == Tab::Log {
        a.effects.push(EffectView::Svn(CmdView::Status)).push(EffectView::Svn(CmdView::Log(LOG_PAGE as nat)))
    } else {
        a.effects.push(EffectView::Svn(CmdView::Status))
    }
}

/// The outstanding count after a reload (see [`refreshed_after`]).
pub open spec fn refresh_pending(a: AppView) -> nat {
    if a.tab == Tab::Log {
        bumped(bumped(a.pending, 1), 1)
    } else {
        bumped(a.pending, 1)
    }
}

/// `b` is `a` with a message popup on top saying `text`, then a reload.
pub open spec fn told_and_refreshed(a: AppView, b: AppView, text: Seq<char>, is_error: bool) -> bool {
    &&& b == (AppView { popups: b.popups, pending: refresh_pending(a), effects: refresh_effects(a), ..a })
    &&& pushed_popup(a.popups, b.popups)
    &&& b.popups.last() matches Popup::Msg(m) && m.message@ == text && m.is_error == is_error
}

/// New status entries arrived: the status tab shows them and the
/// selected file's diff is asked for (see
/// [`crate::status::status_updated`], [`diff_requested`]).
pub open spec fn status_arrived(a: AppView, b: AppView, result: Result<Vec<crate::models::StatusEntry>, String>) -> bool {
    match result {
        Ok(es) => exists|m: AppView|
            {
                &&& m == (AppView { status: m.status, ..a })
                &&& #[trigger] crate::status::status_updated(a.status, m.status, es@)
                &&& diff_requested(m, b)
            },
        Err(e) => message_shown(a, b, "svn status: "@ + e@, true),
    }
}

/// The repository overview arrived: it opens in an output popup (see
/// `repo_info::repo_info`).
pub open spec fn repo_info_arrived(a: AppView, b: AppView, result: Result<Box<(SvnInfo, Option<SvnInfo>)>, String>) -> bool {
    match result {
        Ok(pair) => {
            &&& popup_opened(a, b)
            &&& b.popups.last() matches Popup::Output(o) && o.title@ == "Repo info"@ && exists|
                f: Seq<(char, Seq<char>)>,
            |
                crate::status_tree::sorted_by_path(crate::status_tree::file_pairs(a.status.tree@.entries), f)
                    && crate::spans::lines_view(o.lines@) == crate::repo_info::repo_info(
                    pair.0,
                    pair.1,
                    f,
                    a.status.tree@.staged.len(),
                )
        },
        Err(e) => message_shown(a, b, "svn info: "@ + e@, true),
    }
}

/// A commit finished: the staged set and the input clear, the bar lets
/// go of the focus, the output shows, and the status and the log (which
/// stocks the recent-message picker) reload.
pub open spec fn commit_arrived(a: AppView, b: AppView, result: Result<String, String>) -> bool {
    match result {
        Ok(_) => {
            &&& b == (AppView {
                status: b.status,
                popups: b.popups,
                pending: bumped(bumped(a.pending, 1), 1),
                effects: a.effects.push(EffectView::Svn(CmdView::Status)).push(
                    EffectView::Svn(CmdView::Log(LOG_PAGE as nat)),
                ),
                ..a
            })
            &&& pushed_popup(a.popups, b.popups)
            &&& b.popups.last() matches Popup::Output(o) && o.title@ == "svn commit"@
            &&& b.status.tree@ == (PaneState { staged: Set::empty(), ..a.status.tree@ })
            &&& b.status.commit@ == (CommitState {
                lines: seq![Seq::<char>::empty()],
                cursor: (0usize, 0usize),
                focused: false,
                history_open: false,
                hint: crate::status::commit_hint(0),
                ..a.status.commit@
            })
            &&& b.status.diff == a.status.diff && b.status.focus == a.status.focus
            &&& b.status.last_diff_requested == a.status.last_diff_requested
        },
        Err(e) => message_shown(a, b, "svn commit: "@ + e@, true),
    }
}

/// Paths were reverted: they leave the staged set, and the working copy
/// reloads.
pub open spec fn revert_arrived(a: AppView, b: AppView, result: Result<Vec<String>, String>) -> bool {
    match result {
        Ok(paths) => exists|m: AppView|
            {
                &&& m == (AppView { status: m.status, ..a })
                &&& m.status.tree@ == (PaneState {
                    staged: a.status.tree@.staged.difference(texts(paths@).to_set()),
                    ..a.status.tree@
                })
                &&& m.status.commit@ == (CommitState {
                    hint: crate::status::commit_hint(m.status.tree@.staged.len()),
                    ..a.status.commit@
                })
                &&& m.status.diff == a.status.diff && m.status.focus == a.status.focus
                &&& m.status.last_diff_requested == a.status.last_diff_requested
                &&& #[trigger] told_and_refreshed(m, b, "Reverted"@, false)
            },
        Err(e) => message_shown(a, b, "svn revert: "@ + e@, true),
    }
}

/// The working copy's diff for a new patch arrived (see
/// [`App::save_patch`]).
pub open spec fn patch_diff_arrived(a: AppView, b: AppView, result: Result<String, String>) -> bool {
    match result {
        Ok(diff) => if trim(diff@).len() == 0 {
            message_shown(a, b, "The working copy has no changes: nothing to save"@, false)
        } else {
            b == (AppView { effects: a.effects.push(EffectView::SavePatch(diff@)), ..a })
        },
        Err(e) => message_shown(a, b, "svn diff: "@ + e@, true),
    }
}

/// What a finished background operation does to the app (after one less
/// operation is outstanding).
pub open spec fn async_after(a0: AppView, b: AppView, n: AsyncSvnNotification) -> bool {
    let a = AppView { pending: dec(a0.pending), ..a0 };
    match n {
        AsyncSvnNotification::Version(r) => version_checked(a, b, r),
        AsyncSvnNotification::Info(r) => info_checked(a, b, r),
        AsyncSvnNotification::RepoInfo(r) => repo_info_arrived(a, b, r),
        AsyncSvnNotification::Status(r) => status_arrived(a, b, r),
        AsyncSvnNotification::Diff { path, result } => file_diff_arrived(a, b, path@, result),
        AsyncSvnNotification::Log(r) => log_loaded(a, b, r),
        AsyncSvnNotification::FileLog { path, result } => history_arrived(a, b, path@, result),
        AsyncSvnNotification::ListFiles(r) => files_arrived(a, b, r),
        AsyncSvnNotification::RevisionDiff { revision, result } => revision_diff_arrived(a, b, revision, result),
        AsyncSvnNotification::RangeDiff { from, to, result } => range_diff_arrived(a, b, from, to, result),
        AsyncSvnNotification::Blame { path, result } => blame_arrived(a, b, path@, result),
        AsyncSvnNotification::Update(r) => op_finished(a, b, "svn update"@, "svn update"@, r),
        AsyncSvnNotification::Commit(r) => commit_arrived(a, b, r),
        AsyncSvnNotification::Add(r) => match r {
            Ok(_) => told_and_refreshed(a, b, "Added to version control"@, false),
            Err(e) => message_shown(a, b, "svn add: "@ + e@, true),
        },
        AsyncSvnNotification::Revert(r) => revert_arrived(a, b, r),
        AsyncSvnNotification::Resolve(r) => match r {
            Ok(p) => told_and_refreshed(a, b, "Conflict resolved"@ + ": "@ + p@, false),
            Err(e) => message_shown(a, b, "svn resolve: "@ + e@, true),
        },
        AsyncSvnNotification::UpdateToRevision(r) => op_finished(a, b, "svn update -r"@, "svn update"@, r),
        AsyncSvnNotification::LogSearch { pattern, result } => log_searched(a, b, pattern@, result),
        AsyncSvnNotification::LogAppend { before_rev, result } => log_appended(a, b, before_rev, result),
        AsyncSvnNotification::CreatePatch(r) => patch_diff_arrived(a, b, r),
        AsyncSvnNotification::ApplyPatch(r) => op_finished(a, b, "svn patch"@, "svn patch"@, r),
    }
}

/// The first entry of a revision found in a prefix is the first overall.
proof fn lemma_entry_of_prefix(es: Seq<LogEntry>, rev: u64, k: int)
    requires
        0 < k <= es.len(),
        entry_of(es.take(k - 1), rev) is None,
        es[k - 1].revision == rev,
    ensures
        entry_of(es, rev) == Some(k - 1),
    decreases es.len() - k,
{
    if k == es.len() {
        assert(es.drop_last() =~= es.take(k - 1));
    } else {
        assert(es.drop_last().take(k - 1) =~= es.take(k - 1));
        lemma_entry_of_prefix(es.drop_last(), rev, k);
    }
}

proof fn lemma_top_history(ps: Seq<Popup>, path: Seq<char>)
    ensures
        -1 <= top_history(ps, path) < ps.len(),
        top_history(ps, path) >= 0 ==> is_history_of(ps[top_history(ps, path)], path),
    decreases ps.len(),
{
    if ps.len() > 0 && !is_history_of(ps.last(), path) {
        lemma_top_history(ps.drop_last(), path);
    }
}

proof fn lemma_top_blame(ps: Seq<Popup>, path: Seq<char>)
    ensures
        -1 <= top_blame(ps, path) < ps.len(),
        top_blame(ps, path) >= 0 ==> is_blame_of(ps[top_blame(ps, path)], path),
    decreases ps.len(),
{
    if ps.len() > 0 && !is_blame_of(ps.last(), path) {
        lemma_top_blame(ps.drop_last(), path);
    }
}

proof fn lemma_top_finder(ps: Seq<Popup>)
    ensures
        -1 <= top_finder(ps) < ps.len(),
        top_finder(ps) >= 0 ==> is_finder(ps[top_finder(ps)]),
    decreases ps.len(),
{
    if ps.len() > 0 && !is_finder(ps.last()) {
        lemma_top_finder(ps.drop_last());
    }
}

/// The requests the components have queued, in the order they are
/// handled: the top popup's, the status tree's, the commit bar's, the
/// log's, the patch tab's, then the app's own.
pub open spec fn queued_requests(a: AppView) -> Seq<InternalEvent> {
    let top = if a.popups.len() > 0 {
        popup_queue(a.popups.last())
    } else {
        Seq::empty()
    };
    top + a.status.tree@.queue + a.status.commit@.queue + a.log.queue + a.patches.queue + a.queue
}

/// `b` is `a` with every queue taken (see [`queued_requests`]).
pub open spec fn drained(a: AppView, b: AppView) -> bool {
    let n = a.popups.len();
    &&& b == (AppView { status: b.status, log: b.log, patches: b.patches, popups: b.popups, queue: Seq::empty(), ..a })
    &&& same_but(a.popups, b.popups, n - 1)
    &&& n > 0 ==> popup_kind(b.popups.last()) == popup_kind(a.popups.last()) && popup_queue(b.popups.last()).len()
        == 0 && (popup_ok(a.popups.last()) ==> popup_ok(b.popups.last()))
    &&& b.status.tree@ == (PaneState { queue: Seq::empty(), ..a.status.tree@ })
    &&& b.status.commit@ == (CommitState { queue: Seq::empty(), ..a.status.commit@ })
    &&& b.status.diff == a.status.diff && b.status.focus == a.status.focus
    &&& b.status.last_diff_requested == a.status.last_diff_requested
    &&& b.log == (LogState { queue: Seq::empty(), ..a.log })
    &&& b.patches == (crate::patches::PatchesState { queue: Seq::empty(), ..a.patches })
}

/// `b` is `a` after handling the requests `evs` in order (see
/// [`internal_after`]).
pub open spec fn all_handled(a: AppView, b: AppView, evs: Seq<InternalEvent>) -> bool
    decreases evs.len(),
{
    if evs.len() == 0 {
        b == a
    } else {
        exists|m: AppView| all_handled(a, m, evs.drop_last()) && #[trigger] internal_after(m, b, evs.last())
    }
}

/// `b` is `a` after its queued requests were taken and handled.
pub open spec fn queue_processed(a: AppView, b: AppView) -> bool {
    exists|m: AppView| #[trigger] drained(a, m) && all_handled(m, b, queued_requests(a))
}

/// `b` is `a` with the tab `tab` active (see [`App::activate_tab`]).
pub open spec fn activated(a: AppView, b: AppView, tab: Tab) -> bool {
    b == (AppView {
        tab,
        effects: if tab == Tab::Patches {
            a.effects.push(EffectView::ListPatches)
        } else {
            a.effects
        },
        ..a
    })
}

/// The active tab took the input event `ev`; `used` is whether it used
/// it.
pub open spec fn tab_took(a: AppView, b: AppView, ev: Event, used: bool) -> bool {
    match a.tab {
        Tab::Status => {
            &&& b == (AppView { status: b.status, ..a })
            &&& exists|mid: StatusTab, c: bool|
                #[trigger] crate::status::status_stepped(a.status, mid, ev, c) && (c ==> b.status == mid && used) && (!c
                    ==> crate::status::global_keyed(mid, b.status, ev, used))
        },
        Tab::Log => {
            let (s2, reqs, u) = crate::log::log_event(a.log, ev);
            &&& b == (AppView { log: b.log, ..a })
            &&& b.log == (LogState { queue: b.log.queue, ..s2 })
            &&& crate::log::log_requested(a.log.queue, b.log.queue, reqs)
            &&& used == u
        },
        Tab::Patches => match ev {
            Event::Key(k) => {
                &&& b == (AppView { patches: b.patches, ..a })
                &&& crate::patches::patches_after(a.patches, b.patches, k)
                &&& used == !(crate::patches::patches_action(k) is Ignore)
            },
            _ => b == a && !used,
        },
    }
}

/// The app's own keys, for what the tab left: quit, help, the file
/// finder, a new patch, the repository overview, and the tab switches
/// (Tab / Shift+Tab cycle the tabs from the log and patch tabs; the
/// status tab keeps them for its panes).
pub open spec fn app_key(a: AppView, b: AppView, ev: Event) -> bool {
    match ev {
        Event::Key(k) => if binds(k, KeyAction::Quit) {
            b == (AppView { quitting: true, ..a })
        } else if binds(k, KeyAction::Help) {
            popup_opened(a, b) && (b.popups.last() matches Popup::Help(h) && h.scroll == 0)
        } else if binds(k, KeyAction::OpenFileFinder) {
            b == (AppView { queue: a.queue.push(InternalEvent::OpenFileFinder), ..a })
        } else if binds(k, KeyAction::SavePatch) {
            ran(a, b, CmdView::CreatePatch)
        } else if binds(k, KeyAction::RepoInfo) {
            ran(a, b, CmdView::RepoInfo)
        } else if binds(k, KeyAction::FocusNext) {
            match a.tab {
                Tab::Status => b == a,
                Tab::Log => activated(a, b, Tab::Patches),
                Tab::Patches => activated(a, b, Tab::Status),
            }
        } else if binds(k, KeyAction::FocusPrev) {
            match a.tab {
                Tab::Status => b == a,
                Tab::Log => activated(a, b, Tab::Status),
                Tab::Patches => activated(a, b, Tab::Log),
            }
        } else if binds(k, KeyAction::SwitchTabStatus) {
            activated(a, b, Tab::Status)
        } else if binds(k, KeyAction::SwitchTabLog) {
            activated(a, b, Tab::Log)
        } else if binds(k, KeyAction::SwitchTabPatches) {
            activated(a, b, Tab::Patches)
        } else {
            b == a
        },
        _ => b == a,
    }
}

/// What an input event does to the app. An open popup takes it (tab
/// interaction is blocked meanwhile) and the requests it queued are
/// handled; a fatal error quits once its message is dismissed. Otherwise
/// the active tab takes it, and what it leaves goes to the app's keys.
pub open spec fn input_after(a: AppView, b: AppView, ev: Event) -> bool {
    if a.popups.len() > 0 {
        exists|m1: AppView, m2: AppView|
            {
                &&& m1 == (AppView { popups: m1.popups, ..a })
                &&& same_but(a.popups, m1.popups, a.popups.len() - 1)
                &&& popup_stepped(a.popups.last(), m1.popups.last(), ev)
                &&& #[trigger] queue_processed(m1, m2)
                &&& b == (AppView { quitting: m2.quitting || (m2.fatal is Some && m2.popups.len() == 0), ..m2 })
            }
    } else if a.fatal is Some {
        b == (AppView { quitting: true, ..a })
    } else {
        exists|m: AppView, used: bool|
            #[trigger] tab_took(a, m, ev, used) && (used ==> b == m) && (!used ==> app_key(m, b, ev))
    }
}

/// What one input event does, with the requests it caused handled and
/// the selected file's diff asked for (the app's loop, one turn).
pub open spec fn input_step(a: AppView, b: AppView, ev: Event) -> bool {
    exists|m1: AppView, m2: AppView|
        #[trigger] input_after(a, m1, ev) && #[trigger] queue_processed(m1, m2) && diff_requested(m2, b)
}

/// What a finished background operation does, with the requests it
/// caused handled and the selected file's diff asked for (the app's loop,
/// one turn).
pub open spec fn async_step(a: AppView, b: AppView, n: AsyncSvnNotification) -> bool {
    exists|m1: AppView, m2: AppView|
        #[trigger] async_after(a, m1, n) && #[trigger] queue_processed(m1, m2) && diff_requested(m2, b)
}

/// The status bar: the branch (truncated to 40 chars), the activity
/// spinner with the number of outstanding operations, the number of
/// staged paths, then the key hints of the tab and the global keys.
pub open spec fn status_bar(a: AppView, frame: Seq<char>, hints: Seq<char>) -> Seq<(Seq<char>, Role)> {
    let branch = match a.info {
        Some(i) => seq![(seq!['['] + crate::ui::spec_truncate(i.spec_branch_label(), 40) + "] "@, Role::Revision)],
        None => Seq::empty(),
    };
    let busy = if a.pending > 0 {
        seq![
            (frame + seq![' '], Role::Info),
            (decimal(a.pending) + " op"@, Role::Info),
            (seq![' '], Role::Plain),
        ]
    } else {
        Seq::empty()
    };
    let staged = if a.status.tree@.staged.len() > 0 {
        seq![("staged "@ + decimal(a.status.tree@.staged.len()) + seq![' '], Role::Status('A'))]
    } else {
        Seq::empty()
    };
    branch + busy + staged + seq![(hints + "  ? help  i info  q quit  [1]status [2]log [3]patches"@, Role::Dim)]
}

/// Patch files larger than this are not previewed: the file is read and
/// parsed at once, so a pathological patch would freeze the app.
pub const MAX_PATCH_PREVIEW_BYTES: u64 = 8388608;

/// The working copy to open: the path given on the command line, or the
/// current directory.
pub fn cli_path(given: Option<String>) -> (r: String)
    ensures
        match given {
            Some(p) => r@ == p@,
            None => r@ == "."@,
        },
{
    match given {
        Some(p) => p,
        None => ".".to_owned(),
    }
}

/// The application.
pub struct App {
    pub status: StatusTab,
    pub log: LogComponent,
    pub patches: PatchesComponent,
    pub active_tab: Tab,
    pub popups: Vec<Popup>,
    /// Working copy info (URL / branch / revision), loaded at startup
    pub svn_info: Option<SvnInfo>,
    /// svn client version ("1.14.5"), checked at startup; also shown in
    /// the repo-info popup
    pub svn_version: Option<String>,
    /// Directory the app was started on (fallback working-copy label);
    /// `None` when it is no valid text
    pub cwd: Option<String>,
    /// Number of outstanding background operations (drives the spinner);
    /// it saturates at `usize::MAX`
    pub pending: usize,
    pub quitting: bool,
    pub fatal_error: Option<String>,
    pub spinner_frame: usize,
    pending_fullscreen: Option<PendingFullscreen>,
    /// Requests of the app's own keys
    queue: Queue,
    /// Outside work asked for, oldest first
    effects: Vec<Effect>,
}

impl View for App {
    type V = AppView;

    closed spec fn view(&self) -> AppView {
        AppView {
            status: self.status,
            log: self.log@,
            patches: self.patches@,
            tab: self.active_tab,
            popups: self.popups@,
            info: self.svn_info,
            version: opt_seq(self.svn_version),
            cwd: opt_seq(self.cwd),
            pending: self.pending as nat,
            quitting: self.quitting,
            fatal: opt_seq(self.fatal_error),
            spinner: self.spinner_frame as nat,
            fullscreen: full_view(self.pending_fullscreen),
            queue: self.queue@,
            effects: effects_view(self.effects@),
        }
    }
}

impl App {
    /// The tabs are consistent.
    pub closed spec fn wf(&self) -> bool {
        &&& self.status.wf()
        &&& self.log.wf()
    }

    /// A fresh app on the working copy `cwd`, its patch tab on `patch_dir`
    /// listing `patches`.
    pub fn new(cwd: Option<String>, patch_dir: String, patches: Vec<crate::patches::PatchFile>) -> (a: App)
        ensures
            a.wf(),
            a@.tab == Tab::Status,
            a@.popups.len() == 0,
            a@.info is None && a@.version is None,
            a@.cwd == opt_seq(cwd),
            a@.pending == 0 && !a@.quitting && a@.fatal is None && a@.spinner == 0,
            a@.fullscreen is None,
            a@.queue.len() == 0 && a@.effects.len() == 0,
            a@.patches.dir == patch_dir@,
            crate::patches::newest_first(a@.patches.entries, patches@),
    {
        let a = App {
            status: StatusTab::new(),
            log: LogComponent::new(),
            patches: PatchesComponent::with_dir(patch_dir, patches),
            active_tab: Tab::Status,
            popups: Vec::new(),
            svn_info: None,
            svn_version: None,
            cwd,
            pending: 0,
            quitting: false,
            fatal_error: None,
            spinner_frame: 0,
            pending_fullscreen: None,
            queue: Queue::new(),
            effects: Vec::new(),
        };
        assert(effects_view(a.effects@) =~= Seq::<EffectView>::empty());
        a
    }

    /// Take the outside work asked for, oldest first.
    pub fn take_effects(&mut self) -> (v: Vec<Effect>)
        requires
            old(self).wf(),
        ensures
            final(self).wf(),
            effects_view(v@) == old(self)@.effects,
            final(self)@ == (AppView { effects: Seq::empty(), ..old(self)@ }),
    {
        let mut v: Vec<Effect> = Vec::new();
        std::mem::swap(&mut v, &mut self.effects);
        assert(effects_view(self.effects@) =~= Seq::<EffectView>::empty());
        v
    }

    /// Ask for `c` to run; one more operation is outstanding.
    fn run(&mut self, c: SvnCommand)
        requires
            old(self).wf(),
        ensures
            final(self).wf(),
            final(self)@ == (AppView {
                pending: bumped(old(self)@.pending, 1),
                effects: old(self)@.effects.push(EffectView::Svn(cmd_view(c))),
                ..old(self)@
            }),
    {
        let ghost e0 = self.effects@;
        self.effects.push(Effect::Svn(c));
        assert(effects_view(self.effects@) =~= effects_view(e0).push(EffectView::Svn(cmd_view(c))));
        self.pending = self.pending.saturating_add(1);
    }

    /// Ask for outside work that is no svn command.
    fn ask(&mut self, e: Effect)
        requires
            old(self).wf(),
        ensures
            final(self).wf(),
            final(self)@ == (AppView { effects: old(self)@.effects.push(effect_view(e)), ..old(self)@ }),
    {
        let ghost e0 = self.effects@;
        self.effects.push(e);
        assert(effects_view(self.effects@) =~= effects_view(e0).push(effect_view(e)));
    }

    fn push_popup(&mut self, p: Popup)
        requires
            old(self).wf(),
        ensures
            final(self).wf(),
            final(self)@ == (AppView { popups: old(self)@.popups.push(p), ..old(self)@ }),
            pushed_popup(old(self)@.popups, final(self)@.popups),
    {
        self.popups.push(p);
        assert(self.popups@.drop_last() =~= old(self).popups@);
    }

    fn pop_popup(&mut self)
        requires
            old(self).wf(),
        ensures
            final(self).wf(),
            final(self)@ == (AppView {
                popups: if old(self)@.popups.len() > 0 {
                    old(self)@.popups.drop_last()
                } else {
                    old(self)@.popups
                },
                ..old(self)@
            }),
    {
        let _ = self.popups.pop();
    }

    /// Show an error message.
    pub fn show_error(&mut self, msg: String)
        requires
            old(self).wf(),
        ensures
            final(self).wf(),
            final(self)@ == (AppView { popups: final(self)@.popups, ..old(self)@ }),
            pushed_popup(old(self)@.popups, final(self)@.popups),
            final(self)@.popups.last() matches Popup::Msg(m) && m.message@ == msg@ && m.is_error,
    {
        let p = Popup::msg(msg, true);
        self.push_popup(p);
    }

    /// Show an information message.
    pub fn show_info(&mut self, msg: String)
        requires
            old(self).wf(),
        ensures
            final(self).wf(),
            final(self)@ == (AppView { popups: final(self)@.popups, ..old(self)@ }),
            pushed_popup(old(self)@.popups, final(self)@.popups),
            final(self)@.popups.last() matches Popup::Msg(m) && m.message@ == msg@ && !m.is_error,
    {
        let p = Popup::msg(msg, false);
        self.push_popup(p);
    }

    /// The working copy shown in update confirmations (see [`wc_label`]).
    pub fn working_copy_label(&self) -> (r: String)
        ensures
            r@ == wc_label(self@.info, self@.cwd),
    {
        match &self.svn_info {
            Some(i) => {
                if !i.wc_root.as_str().is_empty() {
                    return i.wc_root.clone();
                }
            },
            None => {},
        }
        match &self.cwd {
            Some(c) => c.clone(),
            None => "?".to_owned(),
        }
    }

    /// The commit confirmation message (see [`commit_text`]).
    pub fn commit_confirm_message(&self, message: &str, paths: &[String]) -> (r: String)
        requires
            self.wf(),
        ensures
            exists|t: Seq<(char, Seq<char>)>|
                commit_targets(self@.status, texts(paths@), t) && r@ == commit_text(
                    branch_text(self@.info),
                    t,
                    message@,
                ),
    {
        let ghost es = self.status.tree@.entries;
        let targets: Vec<(char, String)> = if paths.len() > 0 {
            let mut v: Vec<(char, String)> = Vec::new();
            let mut i: usize = 0;
            while i < paths.len()
                invariant
                    i <= paths@.len(),
                    es == self.status.tree@.entries,
                    target_views(v@) == texts(paths@).take(i as int).map_values(
                        |p: Seq<char>| (status_of(es, p, ' '), p),
                    ),
                decreases paths.len() - i,
            {
                let c = self.status.tree.status_char(paths[i].as_str());
                let ghost before = target_views(v@);
                v.push((c, paths[i].clone()));
                assert(target_views(v@) =~= before.push((c, paths@[i as int]@)));
                assert(texts(paths@).take(i + 1) =~= texts(paths@).take(i as int).push(paths@[i as int]@));
                i = i + 1;
            }
            assert(texts(paths@).take(paths@.len() as int) =~= texts(paths@));
            v
        } else {
            self.status.tree.staged_files()
        };
        let ghost t = target_views(targets@);
        proof {
            if paths@.len() == 0 {
                let order = choose|order: Seq<Seq<char>>|
                    {
                        &&& order.to_set() == self.status.tree@.staged
                        &&& crate::path_set::strictly_sorted(order)
                        &&& crate::status_tree::pair_views(targets@) == order.map_values(
                            |p: Seq<char>| (status_of(self.status.tree@.entries, p, '?'), p),
                        )
                    };
                assert(t =~= crate::status_tree::pair_views(targets@));
            }
            assert(commit_targets(self.status, texts(paths@), t));
        }
        let msg = Msg::messages();
        let mut out = String::new();
        push_str(&mut out, msg.commit_staged);
        push_str(&mut out, " (");
        push_decimal(&mut out, targets.len() as u64);
        push_str(&mut out, " files)\nTarget branch: ");
        match &self.svn_info {
            Some(i) => push_str(&mut out, i.branch_label()),
            None => push_str(&mut out, "(unknown branch)"),
        }
        push_str(&mut out, "\n");
        let ghost head = out@;
        assert(head =~= "Commit staged changes?"@ + " ("@ + decimal(t.len()) + " files)\nTarget branch: "@ + branch_text(
            self@.info,
        ) + "\n"@);
        let n = targets.len();
        let shown = if n < MAX_LISTED {
            n
        } else {
            MAX_LISTED
        };
        if n > 0 {
            push_str(&mut out, "\nFiles:\n");
            let ghost files_head = out@;
            let mut k: usize = 0;
            while k < shown
                invariant
                    k <= shown <= n,
                    n == targets@.len(),
                    t == target_views(targets@),
                    out@ == files_head + listed(t.take(k as int)),
                decreases shown - k,
            {
                push_str(&mut out, "  ");
                push_char(&mut out, targets[k].0);
                push_char(&mut out, ' ');
                push_str(&mut out, targets[k].1.as_str());
                push_str(&mut out, "\n");
                proof {
                    let tk = t.take(k + 1);
                    assert(tk.drop_last() =~= t.take(k as int));
                    assert(tk.last() == t[k as int]);
                    assert(seq![targets@[k as int].0, ' '] =~= seq![targets@[k as int].0].push(' '));
                }
                k = k + 1;
            }
            assert(t.take(shown as int) == t.take(if t.len() < MAX_LISTED { t.len() as int } else { MAX_LISTED as int }));
            if n > MAX_LISTED {
                push_str(&mut out, "  \u{2026} and ");
                push_decimal(&mut out, (n - MAX_LISTED) as u64);
                push_str(&mut out, " more\n");
            }
        }
        let ghost files = if t.len() == 0 {
            Seq::empty()
        } else {
            "\nFiles:\n"@ + listed(t.take(if t.len() < MAX_LISTED { t.len() as int } else { MAX_LISTED as int }))
                + if t.len() > MAX_LISTED {
                "  \u{2026} and "@ + decimal((t.len() - MAX_LISTED) as nat) + " more\n"@
            } else {
                Seq::empty()
            }
        };
        assert(out@ =~= head + files);
        push_str(&mut out, "\n\"");
        let tm = trimmed(message);
        push_str(&mut out, tm.as_str());
        push_str(&mut out, "\"");
        assert(out@ =~= commit_text(branch_text(self@.info), t, message@));
        out
    }

    /// Check the working copy and the client version.
    pub fn start(&mut self)
        requires
            old(self).wf(),
        ensures
            final(self).wf(),
            final(self)@ == (AppView {
                pending: bumped(bumped(old(self)@.pending, 1), 1),
                effects: old(self)@.effects.push(EffectView::Svn(CmdView::CheckInfo)).push(
                    EffectView::Svn(CmdView::Version),
                ),
                ..old(self)@
            }),
    {
        self.run(SvnCommand::CheckInfo);
        self.run(SvnCommand::Version);
    }

    /// Advance the spinner.
    pub fn tick(&mut self)
        requires
            old(self).wf(),
        ensures
            final(self).wf(),
            final(self)@ == (AppView { spinner: bumped(old(self)@.spinner, 1), ..old(self)@ }),
    {
        self.spinner_frame = self.spinner_frame.saturating_add(1);
    }

    /// Switch the active tab; entering the patches tab reloads its list
    /// (a cheap local directory read) so it never shows stale entries.
    pub fn activate_tab(&mut self, tab: Tab)
        requires
            old(self).wf(),
        ensures
            final(self).wf(),
            final(self)@ == (AppView {
                tab,
                effects: if tab == Tab::Patches {
                    old(self)@.effects.push(EffectView::ListPatches)
                } else {
                    old(self)@.effects
                },
                ..old(self)@
            }),
    {
        self.active_tab = tab;
        if tab == Tab::Patches {
            self.ask(Effect::ListPatches);
        }
    }

    /// A fresh listing of the patch directory arrived.
    pub fn patches_listed(&mut self, listing: Vec<PatchFile>)
        requires
            old(self).wf(),
        ensures
            final(self).wf(),
            final(self)@ == (AppView { patches: final(self)@.patches, ..old(self)@ }),
            exists|r: Seq<PatchFile>|
                crate::patches::newest_first(r, listing@) && final(self)@.patches == crate::patches::relisted(
                    old(self)@.patches,
                    r,
                ),
    {
        self.patches.refresh(listing);
    }

    /// Reload after an operation that changed the working copy: the
    /// status, and the log when it is on screen.
    pub fn refresh_after_op(&mut self)
        requires
            old(self).wf(),
        ensures
            final(self).wf(),
            old(self)@.tab == Tab::Log ==> final(self)@ == (AppView {
                pending: bumped(bumped(old(self)@.pending, 1), 1),
                effects: old(self)@.effects.push(EffectView::Svn(CmdView::Status)).push(
                    EffectView::Svn(CmdView::Log(LOG_PAGE as nat)),
                ),
                ..old(self)@
            }),
            old(self)@.tab != Tab::Log ==> final(self)@ == (AppView {
                pending: bumped(old(self)@.pending, 1),
                effects: old(self)@.effects.push(EffectView::Svn(CmdView::Status)),
                ..old(self)@
            }),
    {
        self.run(SvnCommand::Status);
        if self.active_tab == Tab::Log {
            self.run(SvnCommand::Log(LOG_PAGE));
        }
    }

    /// Ask for the diff of the status tab's selected file, when that tab
    /// is on screen and the file changed (see
    /// `StatusTab::maybe_request_diff`).
    pub fn maybe_request_diff(&mut self)
        requires
            old(self).wf(),
        ensures
            final(self).wf(),
            diff_requested(old(self)@, final(self)@),
    {
        if self.active_tab != Tab::Status {
            return;
        }
        match self.status.maybe_request_diff() {
            Some(path) => self.run(SvnCommand::Diff(path)),
            None => {},
        }
    }

    /// Push the file-history popup and load its log.
    pub fn open_file_history(&mut self, path: &str)
        requires
            old(self).wf(),
        ensures
            final(self).wf(),
            final(self)@ == (AppView {
                popups: final(self)@.popups,
                pending: bumped(old(self)@.pending, 1),
                effects: old(self)@.effects.push(EffectView::Svn(CmdView::FileLog(path@, LOG_PAGE as nat))),
                ..old(self)@
            }),
            pushed_popup(old(self)@.popups, final(self)@.popups),
            final(self)@.popups.last() matches Popup::FileLog(f) && f@.path == path@ && f@.pending,
    {
        let p = Popup::file_log(path);
        self.push_popup(p);
        self.run(SvnCommand::FileLog(path.to_owned(), LOG_PAGE));
    }

    /// Ask the user to confirm `action`.
    pub fn show_confirm(&mut self, message: String, action: ConfirmAction)
        requires
            old(self).wf(),
        ensures
            final(self).wf(),
            final(self)@ == (AppView { popups: final(self)@.popups, ..old(self)@ }),
            pushed_popup(old(self)@.popups, final(self)@.popups),
            final(self)@.popups.last() matches Popup::Confirm(c) && c.action() == Some(action)
                && c.message_view() == message@,
    {
        let p = Popup::confirm(message, action);
        self.push_popup(p);
    }

    /// Show the output of a command.
    pub fn show_output(&mut self, title: String, content: &str)
        requires
            old(self).wf(),
        ensures
            final(self).wf(),
            final(self)@ == (AppView { popups: final(self)@.popups, ..old(self)@ }),
            pushed_popup(old(self)@.popups, final(self)@.popups),
            final(self)@.popups.last() matches Popup::Output(o) && o.title@ == title@,
    {
        let p = Popup::output(title, content);
        self.push_popup(p);
    }

    /// Show a diff fullscreen, with fixed header lines above it.
    pub fn show_diff_popup(&mut self, title: String, content: &str, header: Vec<String>)
        requires
            old(self).wf(),
        ensures
            final(self).wf(),
            final(self)@ == (AppView { popups: final(self)@.popups, ..old(self)@ }),
            pushed_popup(old(self)@.popups, final(self)@.popups),
            final(self)@.popups.last() matches Popup::Diff(d) && d.view.title@ == title@
                && d.view.search_enabled && d.view.parsed.spec_lines() == crate::diff_view::content_lines(
                content@,
            ).1 && d.view.header_lines() == texts(header@).take(
                if header@.len() <= crate::diff_view::DIFF_HEADER_MAX {
                    header@.len() as int
                } else {
                    crate::diff_view::DIFF_HEADER_MAX as int
                },
            ),
    {
        let mut popup = DiffPopup::new(title, content);
        popup.view.set_header(header);
        self.push_popup(Popup::Diff(popup));
    }

    /// The full info of a commit (revision, author, date, message, changed
    /// paths) in a scrollable popup.
    pub fn show_commit_info(&mut self, entry: &LogEntry)
        requires
            old(self).wf(),
        ensures
            final(self).wf(),
            final(self)@ == (AppView { popups: final(self)@.popups, ..old(self)@ }),
            pushed_popup(old(self)@.popups, final(self)@.popups),
            final(self)@.popups.last() matches Popup::Output(o) && o.title@ == "Commit r"@ + decimal(
                entry.revision as nat,
            ) && crate::spans::lines_view(o.lines@) == crate::log::commit_info(*entry),
    {
        let lines = crate::log::log_entry_lines(entry);
        let mut title = "Commit r".to_owned();
        push_decimal(&mut title, entry.revision);
        let p = Popup::Output(OutputPopup::from_lines(title, lines));
        self.push_popup(p);
    }

    /// Run a confirmed action. A commit without explicit paths commits the
    /// staged set, and never an empty one (which would commit every change
    /// in the working copy): that is refused with a message. Deleting a
    /// patch file is asked of the outside; its answer comes to
    /// [`App::patch_deleted`].
    pub fn perform_confirmed(&mut self, action: ConfirmAction)
        requires
            old(self).wf(),
        ensures
            final(self).wf(),
            performed(old(self)@, final(self)@, action),
    {
        match action {
            ConfirmAction::Commit { message, paths } => {
                let paths = if paths.len() == 0 {
                    let staged = self.status.tree.staged();
                    let mut v: Vec<String> = Vec::new();
                    let mut i: usize = 0;
                    while i < staged.len()
                        invariant
                            i <= staged@.len(),
                            texts(v@) == texts(staged@).take(i as int),
                        decreases staged.len() - i,
                    {
                        let ghost before = texts(v@);
                        v.push(staged[i].clone());
                        assert(texts(v@) =~= before.push(staged@[i as int]@));
                        assert(texts(staged@).take(i + 1) =~= texts(staged@).take(i as int).push(staged@[i as int]@));
                        i = i + 1;
                    }
                    assert(texts(staged@).take(staged@.len() as int) =~= texts(staged@));
                    proof {
                        if staged@.len() == 0 {
                            assert(texts(staged@) =~= Seq::<Seq<char>>::empty());
                            assert(self.status.tree@.staged =~= Set::<Seq<char>>::empty());
                        } else {
                            assert(self.status.tree@.staged.contains(texts(staged@)[0]));
                        }
                    }
                    v
                } else {
                    paths
                };
                if paths.len() == 0 {
                    let msg = Msg::messages();
                    self.show_error(msg.commit_nothing_staged.to_owned());
                    return;
                }
                self.run(SvnCommand::Commit(message, paths));
                assert(self@.effects.drop_last() =~= old(self)@.effects);
            },
            ConfirmAction::Revert(paths) => self.run(SvnCommand::Revert(paths)),
            ConfirmAction::Update => self.run(SvnCommand::Update),
            ConfirmAction::Resolve(path) => self.run(SvnCommand::Resolve(path)),
            ConfirmAction::UpdateToRevision(rev) => self.run(SvnCommand::UpdateToRevision(rev)),
            ConfirmAction::ApplyPatch(path) => self.run(SvnCommand::ApplyPatch(path)),
            ConfirmAction::DeletePatch(path) => self.ask(Effect::DeletePatch(path)),
        }
    }

    /// Save the working copy's diff as a new patch file: asked of the
    /// outside (answer: [`App::patch_saved`]). An empty diff (clean
    /// working copy) only says so; no file is written.
    pub fn save_patch(&mut self, diff: String)
        requires
            old(self).wf(),
        ensures
            final(self).wf(),
            trim(diff@).len() == 0 ==> {
                &&& final(self)@ == (AppView { popups: final(self)@.popups, ..old(self)@ })
                &&& pushed_popup(old(self)@.popups, final(self)@.popups)
                &&& final(self)@.popups.last() matches Popup::Msg(m) && !m.is_error && m.message@
                    == "The working copy has no changes: nothing to save"@
            },
            trim(diff@).len() > 0 ==> final(self)@ == (AppView {
                effects: old(self)@.effects.push(EffectView::SavePatch(diff@)),
                ..old(self)@
            }),
    {
        let t = trimmed(diff.as_str());
        if t.as_str().is_empty() {
            let msg = Msg::messages();
            self.show_info(msg.patch_nothing_to_save.to_owned());
            return;
        }
        self.ask(Effect::SavePatch(diff));
    }

    /// A patch was saved at `path`, or saving failed with the message
    /// `error`: say so; after a save the patch list reloads.
    pub fn patch_saved(&mut self, result: Result<String, String>)
        requires
            old(self).wf(),
        ensures
            final(self).wf(),
            pushed_popup(old(self)@.popups, final(self)@.popups),
            match result {
                Ok(path) => {
                    &&& final(self)@ == (AppView {
                        popups: final(self)@.popups,
                        effects: old(self)@.effects.push(EffectView::ListPatches),
                        ..old(self)@
                    })
                    &&& final(self)@.popups.last() matches Popup::Msg(m) && !m.is_error && m.message@ == "Patch saved"@
                        + ": "@ + file_name(path@)
                },
                Err(e) => {
                    &&& final(self)@ == (AppView { popups: final(self)@.popups, ..old(self)@ })
                    &&& final(self)@.popups.last() matches Popup::Msg(m) && m.is_error && m.message@ == e@
                },
            },
    {
        match result {
            Ok(path) => {
                let msg = Msg::messages();
                let mut text = msg.patch_saved.to_owned();
                push_str(&mut text, ": ");
                let name = file_name_of(path.as_str());
                push_str(&mut text, name.as_str());
                self.show_info(text);
                self.ask(Effect::ListPatches);
            },
            Err(e) => self.show_error(e),
        }
    }

    /// The patch file `path` was deleted, or deleting failed with `error`:
    /// say so, and reload the patch list.
    pub fn patch_deleted(&mut self, path: &str, result: Result<(), String>)
        requires
            old(self).wf(),
        ensures
            final(self).wf(),
            final(self)@ == (AppView {
                popups: final(self)@.popups,
                effects: old(self)@.effects.push(EffectView::ListPatches),
                ..old(self)@
            }),
            pushed_popup(old(self)@.popups, final(self)@.popups),
            match result {
                Ok(_) => final(self)@.popups.last() matches Popup::Msg(m) && !m.is_error && m.message@ == "Patch deleted"@
                    + ": "@ + file_name(path@),
                Err(e) => final(self)@.popups.last() matches Popup::Msg(m) && m.is_error && m.message@ == "cannot delete "@
                    + file_name(path@) + ": "@ + e@,
            },
    {
        let name = file_name_of(path);
        match result {
            Ok(()) => {
                let msg = Msg::messages();
                let mut text = msg.patch_deleted.to_owned();
                push_str(&mut text, ": ");
                push_str(&mut text, name.as_str());
                self.show_info(text);
            },
            Err(e) => {
                let mut text = "cannot delete ".to_owned();
                push_str(&mut text, name.as_str());
                push_str(&mut text, ": ");
                push_str(&mut text, e.as_str());
                self.show_error(text);
            },
        }
        self.ask(Effect::ListPatches);
    }

    /// The size of the patch file `path` (and its human-readable form), or
    /// the failure to look it up: a file over
    /// [`MAX_PATCH_PREVIEW_BYTES`] is not previewed; otherwise it is read
    /// (answer: [`App::patch_read`]).
    pub fn patch_stat(&mut self, path: String, size: Result<(u64, String), String>)
        requires
            old(self).wf(),
        ensures
            final(self).wf(),
            (size matches Ok((n, text)) && n > MAX_PATCH_PREVIEW_BYTES) ==> {
                &&& final(self)@ == (AppView { popups: final(self)@.popups, ..old(self)@ })
                &&& pushed_popup(old(self)@.popups, final(self)@.popups)
                &&& final(self)@.popups.last() matches Popup::Msg(m) && m.is_error && m.message@ == file_name(path@)
                    + " is too large to preview ("@ + size.unwrap().1@ + ")"@
            },
            !(size matches Ok((n, _)) && n > MAX_PATCH_PREVIEW_BYTES) ==> final(self)@ == (AppView {
                effects: old(self)@.effects.push(EffectView::ReadPatch(path@)),
                ..old(self)@
            }),
    {
        match size {
            Ok((n, text)) => {
                if n > MAX_PATCH_PREVIEW_BYTES {
                    let mut m = file_name_of(path.as_str());
                    push_str(&mut m, " is too large to preview (");
                    push_str(&mut m, text.as_str());
                    push_str(&mut m, ")");
                    self.show_error(m);
                    return;
                }
            },
            Err(_) => {},
        }
        self.ask(Effect::ReadPatch(path));
    }

    /// The content of the patch file `path` (and its size, human-readable),
    /// or the failure to read it. A patch file is a unified diff: it shows
    /// in the diff popup, named in its header; a file that cannot be read
    /// is reported and the list reloads (it may be gone).
    pub fn patch_read(&mut self, path: &str, result: Result<(String, String), String>)
        requires
            old(self).wf(),
        ensures
            final(self).wf(),
            pushed_popup(old(self)@.popups, final(self)@.popups),
            match result {
                Ok((content, size)) => {
                    &&& final(self)@ == (AppView { popups: final(self)@.popups, ..old(self)@ })
                    &&& final(self)@.popups.last() matches Popup::Diff(d) && d.view.title@ == "Patch: "@ + file_name(
                        path@,
                    ) && d.view.parsed.spec_lines() == crate::diff_view::content_lines(content@).1
                        && d.view.header_lines() == seq![file_name(path@) + " ("@ + size@ + ")"@]
                },
                Err(e) => {
                    &&& final(self)@ == (AppView {
                        popups: final(self)@.popups,
                        effects: old(self)@.effects.push(EffectView::ListPatches),
                        ..old(self)@
                    })
                    &&& final(self)@.popups.last() matches Popup::Msg(m) && m.is_error && m.message@ == "cannot read "@
                        + path@ + ": "@ + e@
                },
            },
    {
        match result {
            Ok((content, size)) => {
                let name = file_name_of(path);
                let mut head = name.clone();
                push_str(&mut head, " (");
                push_str(&mut head, size.as_str());
                push_str(&mut head, ")");
                let mut title = "Patch: ".to_owned();
                push_str(&mut title, name.as_str());
                let header = vec![head];
                proof {
                    assert(texts(header@) =~= seq![head@]);
                    assert(texts(header@).take(1) =~= texts(header@));
                }
                self.show_diff_popup(title, content.as_str(), header);
            },
            Err(e) => {
                let mut m = "cannot read ".to_owned();
                push_str(&mut m, path);
                push_str(&mut m, ": ");
                push_str(&mut m, e.as_str());
                self.show_error(m);
                self.ask(Effect::ListPatches);
            },
        }
    }

    /// The paths joined with `, `.
    fn join_paths(ps: &[String]) -> (r: String)
        ensures
            r@ == comma_joined(texts(ps@)),
    {
        let mut out = String::new();
        let mut i: usize = 0;
        while i < ps.len()
            invariant
                i <= ps@.len(),
                out@ == comma_joined(texts(ps@).take(i as int)),
            decreases ps.len() - i,
        {
            if i > 0 {
                push_str(&mut out, ", ");
            }
            push_str(&mut out, ps[i].as_str());
            proof {
                let t = texts(ps@).take(i + 1);
                assert(t.drop_last() =~= texts(ps@).take(i as int));
                if i == 0 {
                    assert(out@ =~= t[0]);
                }
            }
            i = i + 1;
        }
        assert(texts(ps@).take(ps@.len() as int) =~= texts(ps@));
        out
    }

    /// Ask for confirmation of `action`. A commit with a blank message,
    /// or with neither explicit paths nor staged ones, is refused with a
    /// message instead: without targets `svn commit` would sweep up every
    /// change in the working copy.
    pub fn confirm(&mut self, action: ConfirmAction)
        requires
            old(self).wf(),
        ensures
            final(self).wf(),
            asked_confirm(old(self)@, final(self)@, action),
    {
        let msg = Msg::messages();
        let text: String = match &action {
            ConfirmAction::Commit { message, paths } => {
                let t = trimmed(message.as_str());
                if t.as_str().is_empty() {
                    self.show_error("Commit message is empty".to_owned());
                    return;
                }
                if paths.len() == 0 && self.status.tree.staged_count() == 0 {
                    self.show_error(msg.commit_nothing_staged.to_owned());
                    return;
                }
                self.commit_confirm_message(message.as_str(), paths.as_slice())
            },
            ConfirmAction::Revert(paths) => {
                let mut m = msg.revert_confirm.to_owned();
                push_str(&mut m, " (");
                let j = Self::join_paths(paths.as_slice());
                push_str(&mut m, j.as_str());
                push_str(&mut m, ")");
                m
            },
            ConfirmAction::Update => {
                let mut m = msg.update_confirm.to_owned();
                push_str(&mut m, "\nWorking copy: ");
                let w = self.working_copy_label();
                push_str(&mut m, w.as_str());
                m
            },
            ConfirmAction::Resolve(path) => {
                let mut m = msg.resolve_confirm.to_owned();
                push_str(&mut m, " (");
                push_str(&mut m, path.as_str());
                push_str(&mut m, ")");
                m
            },
            ConfirmAction::UpdateToRevision(rev) => {
                let mut m = msg.update_to_rev_confirm.to_owned();
                push_str(&mut m, " (r");
                push_decimal(&mut m, *rev);
                push_str(&mut m, ")\nWorking copy: ");
                let w = self.working_copy_label();
                push_str(&mut m, w.as_str());
                m
            },
            ConfirmAction::ApplyPatch(path) => {
                let mut m = msg.apply_patch_confirm.to_owned();
                push_str(&mut m, "\n");
                let n = file_name_of(path.as_str());
                push_str(&mut m, n.as_str());
                m
            },
            ConfirmAction::DeletePatch(path) => {
                let mut m = msg.delete_patch_confirm.to_owned();
                push_str(&mut m, "\n");
                let n = file_name_of(path.as_str());
                push_str(&mut m, n.as_str());
                m
            },
        };
        self.show_confirm(text, action);
    }

    /// The smallest and the largest of `revs` (not empty).
    fn min_max(revs: &[u64]) -> (r: (u64, u64))
        requires
            revs@.len() > 0,
        ensures
            r == (seq_min(revs@), seq_max(revs@)),
    {
        let mut lo = revs[0];
        let mut hi = revs[0];
        let mut i: usize = 1;
        while i < revs.len()
            invariant
                1 <= i <= revs@.len(),
                lo == seq_min(revs@.take(i as int)),
                hi == seq_max(revs@.take(i as int)),
            decreases revs.len() - i,
        {
            proof {
                let t = revs@.take(i + 1);
                assert(t.drop_last() =~= revs@.take(i as int));
                assert(t.last() == revs@[i as int]);
            }
            if revs[i] < lo {
                lo = revs[i];
            }
            if revs[i] > hi {
                hi = revs[i];
            }
            i = i + 1;
        }
        assert(revs@.take(revs@.len() as int) =~= revs@);
        (lo, hi)
    }

    /// What the app does with a component's request (see
    /// [`internal_after`]).
    pub fn handle_internal(&mut self, ev: InternalEvent)
        requires
            old(self).wf(),
        ensures
            final(self).wf(),
            internal_after(old(self)@, final(self)@, ev),
    {
        match ev {
            InternalEvent::Update(flags) => {
                if flags.contains(NeedsUpdate::status()) {
                    self.run(SvnCommand::Status);
                }
                if flags.contains(NeedsUpdate::log()) {
                    self.run(SvnCommand::Log(LOG_PAGE));
                }
            },
            InternalEvent::ShowInfoMsg(msg) => self.show_info(msg),
            InternalEvent::OpenHelp => {
                let p = Popup::help();
                self.push_popup(p);
            },
            InternalEvent::ClosePopup => self.pop_popup(),
            InternalEvent::OpenCommit => {
                self.status.set_focus(PaneFocus::Commit);
                self.status.commit.set_focused(true);
            },
            InternalEvent::OpenLogSearch => {
                let p = Popup::log_search(self.log.filter());
                self.push_popup(p);
            },
            InternalEvent::LogSearchInput(text) => {
                // while server-side search results are shown the live
                // filter is ignored; drop search mode so typing in the
                // popup filters what is on screen again
                self.log.clear_search();
                self.log.set_filter(text);
            },
            InternalEvent::OpenStatusFilter => {
                let p = Popup::status_filter(self.status.tree.filter());
                self.push_popup(p);
            },
            InternalEvent::StatusFilterInput(text) => {
                self.status.tree.set_filter(text);
            },
            InternalEvent::SearchLog(pattern) => {
                self.log.set_search_active(pattern.clone());
                self.run(SvnCommand::LogSearch(pattern));
            },
            InternalEvent::LogLoadMore => {
                let n = self.log.entries().len();
                let oldest = if n == 0 {
                    1
                } else {
                    self.log.entries()[n - 1].revision
                };
                if oldest > 1 {
                    self.run(SvnCommand::LogMore(oldest, LOG_PAGE));
                }
            },
            InternalEvent::ShowCommitInfo(entry) => self.show_commit_info(&entry),
            InternalEvent::Confirm(action) => self.confirm(action),
            InternalEvent::Confirmed(action) => self.perform_confirmed(action),
            InternalEvent::SwitchTab(tab) => self.activate_tab(tab),
            InternalEvent::RefreshStatus => self.run(SvnCommand::Status),
            InternalEvent::AddFiles(paths) => {
                if paths.len() > 0 {
                    self.run(SvnCommand::Add(paths));
                }
            },
            InternalEvent::RequestFileDiff => {
                let sel = self.status.tree.selection_path();
                let is_file = self.status.tree.selection_entry().is_some();
                match sel {
                    Some(path) => {
                        if is_file {
                            self.pending_fullscreen = Some(PendingFullscreen::File(path.clone()));
                            self.run(SvnCommand::Diff(path));
                        }
                    },
                    None => {},
                }
            },
            InternalEvent::RequestBlame(path) => {
                // Reject only paths known to be unversioned (status '?');
                // files from the finder or a file log have no status entry
                // at all and are versioned by construction.
                if self.status.tree.status_char(path.as_str()) == '?' {
                    self.show_error("svn blame: file is not under version control".to_owned());
                } else {
                    let p = Popup::blame(path.as_str());
                    self.push_popup(p);
                    self.run(SvnCommand::Blame(path));
                }
            },
            InternalEvent::RequestRevisionDiff(rev) => {
                self.pending_fullscreen = Some(PendingFullscreen::Revision(rev));
                self.run(SvnCommand::RevisionDiff(rev));
            },
            InternalEvent::RequestRangeDiff(revs) => {
                if revs.len() > 0 {
                    let (from, to) = Self::min_max(revs.as_slice());
                    self.pending_fullscreen = Some(PendingFullscreen::Range(from, to));
                    self.run(SvnCommand::RangeDiff(from, to));
                }
            },
            InternalEvent::RequestFileHistory => {
                match self.status.tree.selection_entry() {
                    Some(e) => {
                        if !e.is_dir && e.status == '?' {
                            self.show_error("svn log: file is not under version control".to_owned());
                        } else if !e.is_dir {
                            let path = e.path.clone();
                            self.open_file_history(path.as_str());
                        }
                    },
                    None => {},
                }
            },
            InternalEvent::OpenFileHistory(path) => self.open_file_history(path.as_str()),
            InternalEvent::OpenFileFinder => {
                let p = Popup::file_finder();
                self.push_popup(p);
                self.run(SvnCommand::ListFiles);
            },
            InternalEvent::PreviewPatch(path) => self.ask(Effect::StatPatch(path)),
        }
    }

    /// The version gate (see [`version_checked`]).
    fn version_arrived(&mut self, result: Result<String, String>)
        requires
            old(self).wf(),
        ensures
            final(self).wf(),
            version_checked(old(self)@, final(self)@, result),
    {
        match result {
            Ok(text) => {
                let ver = crate::parser::parse_version(text.as_str());
                let found: String = match ver {
                    Some((a, b, c)) => {
                        let mut v = String::new();
                        push_decimal(&mut v, a as u64);
                        push_str(&mut v, ".");
                        push_decimal(&mut v, b as u64);
                        push_str(&mut v, ".");
                        push_decimal(&mut v, c as u64);
                        assert(v@ =~= version_text((a, b, c)));
                        v
                    },
                    None => {
                        let mut v = "unparseable ".to_owned();
                        let t = trimmed(text.as_str());
                        let q = debug_quoted(t.as_str());
                        push_str(&mut v, q.as_str());
                        v
                    },
                };
                let ok = match ver {
                    Some(v) => crate::parser::version_at_least(v, MIN_SVN_VERSION),
                    None => false,
                };
                self.svn_version = match ver {
                    Some(_) => Some(found.clone()),
                    None => None,
                };
                if !ok {
                    let (a, b, c) = MIN_SVN_VERSION;
                    let mut m = "svn client is too old: found ".to_owned();
                    push_str(&mut m, found.as_str());
                    push_str(&mut m, ", need >= ");
                    push_decimal(&mut m, a as u64);
                    push_str(&mut m, ".");
                    push_decimal(&mut m, b as u64);
                    push_str(&mut m, ".");
                    push_decimal(&mut m, c as u64);
                    push_str(
                        &mut m,
                        "\n(svn log --search needs 1.8, svn patch needs 1.7)\nsvnui may misbehave; please upgrade subversion",
                    );
                    assert(m@ =~= too_old_text(found@));
                    self.show_error(m);
                }
            },
            Err(_) => {},
        }
    }

    /// The working-copy check (see [`info_checked`]).
    fn info_arrived(&mut self, result: Result<SvnInfo, String>)
        requires
            old(self).wf(),
        ensures
            final(self).wf(),
            info_checked(old(self)@, final(self)@, result),
    {
        match result {
            Ok(info) => {
                self.svn_info = Some(info);
                self.run(SvnCommand::Status);
                self.run(SvnCommand::Log(LOG_PAGE));
            },
            Err(e) => {
                let msg = Msg::messages();
                let mut m = msg.no_working_copy.to_owned();
                push_str(&mut m, "\n");
                push_str(&mut m, e.as_str());
                self.fatal_error = Some(m.clone());
                self.show_error(m);
            },
        }
    }

    /// An operation that changed the working copy finished (see
    /// [`op_finished`]).
    fn op_arrived(&mut self, title: &str, what: &str, result: Result<String, String>)
        requires
            old(self).wf(),
        ensures
            final(self).wf(),
            op_finished(old(self)@, final(self)@, title@, what@, result),
    {
        match result {
            Ok(out) => {
                self.show_output(title.to_owned(), out.as_str());
            },
            Err(e) => {
                let mut m = what.to_owned();
                push_str(&mut m, ": ");
                push_str(&mut m, e.as_str());
                self.show_error(m);
            },
        }
        let ghost mid = self@;
        self.refresh_after_op();
        assert(refreshed_after(mid, self@));
    }

    /// The latest log arrived (see [`log_loaded`]).
    fn log_arrived(&mut self, result: Result<Vec<LogEntry>, String>)
        requires
            old(self).wf(),
        ensures
            final(self).wf(),
            log_loaded(old(self)@, final(self)@, result),
    {
        match result {
            Ok(entries) => {
                let mut history: Vec<String> = Vec::new();
                let mut i: usize = 0;
                while i < entries.len()
                    invariant
                        i <= entries@.len(),
                        texts(history@) == summaries(entries@.take(i as int)),
                    decreases entries.len() - i,
                {
                    let sm = entries[i].summary();
                    proof {
                        let t = entries@.take(i + 1);
                        assert(t.drop_last() =~= entries@.take(i as int));
                        assert(t.last() == entries@[i as int]);
                    }
                    if !sm.as_str().is_empty() {
                        let ghost before = texts(history@);
                        history.push(sm);
                        assert(texts(history@) =~= before.push(sm@));
                    }
                    i = i + 1;
                }
                assert(entries@.take(entries@.len() as int) =~= entries@);
                self.status.commit.set_history(history);
                self.log.clear_search();
                self.log.update(entries);
            },
            Err(e) => {
                let mut m = "svn log: ".to_owned();
                push_str(&mut m, e.as_str());
                self.show_error(m);
            },
        }
    }

    /// A full-history search finished (see [`log_searched`]).
    fn search_arrived(&mut self, pattern: String, result: Result<Vec<LogEntry>, String>)
        requires
            old(self).wf(),
        ensures
            final(self).wf(),
            log_searched(old(self)@, final(self)@, pattern@, result),
    {
        let current = match self.log.search_pattern() {
            Some(p) => crate::text::same_text(p, pattern.as_str()),
            None => false,
        };
        if !current {
            return;
        }
        match result {
            Ok(entries) => self.log.update(entries),
            Err(e) => {
                self.log.clear_search();
                let mut m = "svn log --search: ".to_owned();
                push_str(&mut m, e.as_str());
                self.show_error(m);
            },
        }
    }

    /// Older revisions arrived (see [`log_appended`]).
    fn append_arrived(&mut self, before_rev: u64, result: Result<Vec<LogEntry>, String>)
        requires
            old(self).wf(),
        ensures
            final(self).wf(),
            log_appended(old(self)@, final(self)@, before_rev, result),
    {
        let n = self.log.entries().len();
        let searching = self.log.search_pattern().is_some();
        if searching || n == 0 || self.log.entries()[n - 1].revision != before_rev {
            return;
        }
        match result {
            Ok(entries) => self.log.append(entries),
            Err(e) => {
                self.log.append_failed();
                let mut m = "svn log: ".to_owned();
                push_str(&mut m, e.as_str());
                self.show_error(m);
            },
        }
    }

    /// New status entries arrived (see [`status_arrived`]).
    fn status_loaded(&mut self, result: Result<Vec<crate::models::StatusEntry>, String>)
        requires
            old(self).wf(),
        ensures
            final(self).wf(),
            status_arrived(old(self)@, final(self)@, result),
    {
        match result {
            Ok(entries) => {
                let ghost es = entries@;
                self.status.update_status(entries);
                let ghost mid = self@;
                self.maybe_request_diff();
                assert(crate::status::status_updated(old(self)@.status, mid.status, es));
            },
            Err(e) => {
                let mut m = "svn status: ".to_owned();
                push_str(&mut m, e.as_str());
                self.show_error(m);
            },
        }
    }

    /// The repository overview arrived (see [`repo_info_arrived`]).
    fn repo_info_loaded(&mut self, result: Result<Box<(SvnInfo, Option<SvnInfo>)>, String>)
        requires
            old(self).wf(),
        ensures
            final(self).wf(),
            repo_info_arrived(old(self)@, final(self)@, result),
    {
        match result {
            Ok(pair) => {
                let changed = self.status.tree.changed_files();
                let staged = self.status.tree.staged_count();
                let lines = crate::repo_info::repo_info_lines(&pair.0, pair.1.as_ref(), changed.as_slice(), staged);
                let p = Popup::Output(OutputPopup::from_lines("Repo info".to_owned(), lines));
                self.push_popup(p);
                proof {
                    assert(crate::repo_info::file_views(changed@) == crate::status_tree::pair_views(changed@));
                }
            },
            Err(e) => {
                let mut m = "svn info: ".to_owned();
                push_str(&mut m, e.as_str());
                self.show_error(m);
            },
        }
    }

    /// Whether the fullscreen diff asked for is the file `path`'s.
    fn wants_file(&self, path: &str) -> (b: bool)
        ensures
            b == (self@.fullscreen == Some(FullView::File(path@))),
    {
        match &self.pending_fullscreen {
            Some(PendingFullscreen::File(p)) => crate::text::same_text(p.as_str(), path),
            _ => false,
        }
    }

    /// A file's diff arrived (see [`file_diff_arrived`]).
    fn file_diff_loaded(&mut self, path: String, result: Result<String, String>)
        requires
            old(self).wf(),
        ensures
            final(self).wf(),
            file_diff_arrived(old(self)@, final(self)@, path@, result),
    {
        let full = self.wants_file(path.as_str());
        match result {
            Ok(content) => {
                self.status.apply_diff(path.as_str(), content.as_str());
                let ghost mid = self@;
                assert(crate::status::diff_applied(old(self)@.status, mid.status, path@, content@));
                if full {
                    self.pending_fullscreen = None;
                    self.show_diff_popup(path, content.as_str(), Vec::new());
                    assert(texts(Seq::<String>::empty()) =~= Seq::<Seq<char>>::empty());
                }
            },
            Err(e) => {
                if full {
                    self.pending_fullscreen = None;
                }
                let mut m = "svn diff ".to_owned();
                push_str(&mut m, path.as_str());
                push_str(&mut m, ": ");
                push_str(&mut m, e.as_str());
                self.show_error(m);
            },
        }
    }

    /// A revision range's diff arrived (see [`range_diff_arrived`]).
    fn range_diff_loaded(&mut self, from: u64, to: u64, result: Result<String, String>)
        requires
            old(self).wf(),
        ensures
            final(self).wf(),
            range_diff_arrived(old(self)@, final(self)@, from, to, result),
    {
        let full = match &self.pending_fullscreen {
            Some(PendingFullscreen::Range(f, t)) => *f == from && *t == to,
            _ => false,
        };
        match result {
            Ok(content) => {
                if full {
                    self.pending_fullscreen = None;
                    let header = crate::diff_view::range_header(from, to, self.log.entries());
                    let mut title = "Diff r".to_owned();
                    push_decimal(&mut title, from);
                    push_str(&mut title, "..r");
                    push_decimal(&mut title, to);
                    self.show_diff_popup(title, content.as_str(), header);
                }
            },
            Err(e) => {
                if full {
                    self.pending_fullscreen = None;
                }
                let mut m = "svn diff -r ".to_owned();
                push_decimal(&mut m, from);
                push_str(&mut m, ":");
                push_decimal(&mut m, to);
                push_str(&mut m, ": ");
                push_str(&mut m, e.as_str());
                self.show_error(m);
            },
        }
    }

    /// The first loaded entry of revision `rev`.
    fn find_entry(entries: &[LogEntry], rev: u64) -> (r: Option<usize>)
        ensures
            match r {
                Some(i) => entry_of(entries@, rev) == Some(i as int) && i < entries@.len(),
                None => entry_of(entries@, rev) is None,
            },
    {
        let mut i: usize = 0;
        while i < entries.len()
            invariant
                i <= entries@.len(),
                entry_of(entries@.take(i as int), rev) is None,
            decreases entries.len() - i,
        {
            proof {
                let t = entries@.take(i + 1);
                assert(t.drop_last() =~= entries@.take(i as int));
            }
            if entries[i].revision == rev {
                proof {
                    lemma_entry_of_prefix(entries@, rev, i + 1);
                }
                return Some(i);
            }
            i = i + 1;
        }
        assert(entries@.take(entries@.len() as int) =~= entries@);
        None
    }

    /// A revision's diff arrived (see [`revision_diff_arrived`]).
    fn revision_diff_loaded(&mut self, rev: u64, result: Result<String, String>)
        requires
            old(self).wf(),
        ensures
            final(self).wf(),
            revision_diff_arrived(old(self)@, final(self)@, rev, result),
    {
        let full = match &self.pending_fullscreen {
            Some(PendingFullscreen::Revision(r)) => *r == rev,
            _ => false,
        };
        match result {
            Ok(content) => {
                if full {
                    self.pending_fullscreen = None;
                    let header = match Self::find_entry(self.log.entries(), rev) {
                        Some(i) => crate::diff_view::revision_header(&self.log.entries()[i]),
                        None => Vec::new(),
                    };
                    let mut title = "Diff r".to_owned();
                    push_decimal(&mut title, rev);
                    proof {
                        assert(texts(Seq::<String>::empty()) =~= Seq::<Seq<char>>::empty());
                    }
                    self.show_diff_popup(title, content.as_str(), header);
                }
            },
            Err(e) => {
                if full {
                    self.pending_fullscreen = None;
                }
                let mut m = "svn diff -c ".to_owned();
                push_decimal(&mut m, rev);
                push_str(&mut m, ": ");
                push_str(&mut m, e.as_str());
                self.show_error(m);
            },
        }
    }

    /// The topmost history popup of `path` (see [`top_history`]).
    fn find_history(&self, path: &str) -> (r: Option<usize>)
        ensures
            match r {
                Some(k) => k < self@.popups.len() && top_history(self@.popups, path@) == k as int,
                None => top_history(self@.popups, path@) == -1,
            },
    {
        let mut i: usize = self.popups.len();
        assert(self@.popups.take(i as int) =~= self@.popups);
        while i > 0
            invariant
                i <= self@.popups.len(),
                top_history(self@.popups, path@) == top_history(self@.popups.take(i as int), path@),
            decreases i,
        {
            let ghost t = self@.popups.take(i as int);
            assert(t.drop_last() =~= self@.popups.take(i - 1));
            assert(t.last() == self@.popups[i - 1]);
            let hit = match &self.popups[i - 1] {
                Popup::FileLog(f) => crate::text::same_text(f.path(), path),
                _ => false,
            };
            if hit {
                return Some(i - 1);
            }
            i = i - 1;
        }
        None
    }

    /// The topmost blame popup of `path` (see [`top_blame`]).
    fn find_blame(&self, path: &str) -> (r: Option<usize>)
        ensures
            match r {
                Some(k) => k < self@.popups.len() && top_blame(self@.popups, path@) == k as int,
                None => top_blame(self@.popups, path@) == -1,
            },
    {
        let mut i: usize = self.popups.len();
        assert(self@.popups.take(i as int) =~= self@.popups);
        while i > 0
            invariant
                i <= self@.popups.len(),
                top_blame(self@.popups, path@) == top_blame(self@.popups.take(i as int), path@),
            decreases i,
        {
            let ghost t = self@.popups.take(i as int);
            assert(t.drop_last() =~= self@.popups.take(i - 1));
            assert(t.last() == self@.popups[i - 1]);
            let hit = match &self.popups[i - 1] {
                Popup::Blame(b) => crate::text::same_text(b.path.as_str(), path),
                _ => false,
            };
            if hit {
                return Some(i - 1);
            }
            i = i - 1;
        }
        None
    }

    /// The topmost file finder (see [`top_finder`]).
    fn find_finder(&self) -> (r: Option<usize>)
        ensures
            match r {
                Some(k) => k < self@.popups.len() && top_finder(self@.popups) == k as int,
                None => top_finder(self@.popups) == -1,
            },
    {
        let mut i: usize = self.popups.len();
        assert(self@.popups.take(i as int) =~= self@.popups);
        while i > 0
            invariant
                i <= self@.popups.len(),
                top_finder(self@.popups) == top_finder(self@.popups.take(i as int)),
            decreases i,
        {
            let ghost t = self@.popups.take(i as int);
            assert(t.drop_last() =~= self@.popups.take(i - 1));
            assert(t.last() == self@.popups[i - 1]);
            let hit = match &self.popups[i - 1] {
                Popup::FileFinder(_) => true,
                _ => false,
            };
            if hit {
                return Some(i - 1);
            }
            i = i - 1;
        }
        None
    }

    /// Replace the popup at `k` by `p`.
    fn put_popup(&mut self, k: usize, p: Popup)
        requires
            old(self).wf(),
            k < old(self)@.popups.len(),
        ensures
            final(self).wf(),
            final(self)@ == (AppView { popups: old(self)@.popups.update(k as int, p), ..old(self)@ }),
    {
        let _ = self.popups.remove(k);
        self.popups.insert(k, p);
        assert(self.popups@ =~= old(self)@.popups.update(k as int, p));
    }

    /// A file's history arrived (see [`history_arrived`]).
    fn history_loaded(&mut self, path: String, result: Result<Vec<LogEntry>, String>)
        requires
            old(self).wf(),
        ensures
            final(self).wf(),
            history_arrived(old(self)@, final(self)@, path@, result),
    {
        let found = self.find_history(path.as_str());
        proof {
            lemma_top_history(self@.popups, path@);
        }
        match result {
            Ok(entries) => {
                match found {
                    Some(k) => {
                        let p = self.popups.remove(k);
                        let p2 = match p {
                            Popup::FileLog(f) => {
                                let mut f = f;
                                f.update(entries);
                                Popup::FileLog(f)
                            },
                            other => other,
                        };
                        self.popups.insert(k, p2);
                        assert(self.popups@ =~= old(self)@.popups.update(k as int, p2));
                    },
                    None => {},
                }
            },
            Err(e) => {
                match found {
                    Some(k) => {
                        let p = self.popups.remove(k);
                        let p2 = match p {
                            Popup::FileLog(f) => {
                                let mut f = f;
                                f.set_pending(false);
                                Popup::FileLog(f)
                            },
                            other => other,
                        };
                        self.popups.insert(k, p2);
                        assert(self.popups@ =~= old(self)@.popups.update(k as int, p2));
                    },
                    None => {},
                }
                let ghost mid = self@.popups;
                let mut m = "svn log ".to_owned();
                push_str(&mut m, path.as_str());
                push_str(&mut m, ": ");
                push_str(&mut m, e.as_str());
                self.show_error(m);
                assert(self@.popups.drop_last() == mid);
                assert forall|i: int| 0 <= i < mid.len() implies #[trigger] self@.popups[i] == mid[i] by {
                    assert(self@.popups.drop_last()[i] == self@.popups[i]);
                }
            },
        }
    }

    /// The versioned file list arrived (see [`files_arrived`]).
    fn files_loaded(&mut self, result: Result<Vec<String>, String>)
        requires
            old(self).wf(),
        ensures
            final(self).wf(),
            files_arrived(old(self)@, final(self)@, result),
    {
        let found = self.find_finder();
        proof {
            lemma_top_finder(self@.popups);
        }
        match result {
            Ok(files) => {
                match found {
                    Some(k) => {
                        let p = self.popups.remove(k);
                        let p2 = match p {
                            Popup::FileFinder(f) => {
                                let mut f = f;
                                f.update(files);
                                Popup::FileFinder(f)
                            },
                            other => other,
                        };
                        self.popups.insert(k, p2);
                        assert(self.popups@ =~= old(self)@.popups.update(k as int, p2));
                    },
                    None => {},
                }
            },
            Err(e) => {
                match found {
                    Some(k) => {
                        let p = self.popups.remove(k);
                        let p2 = match p {
                            Popup::FileFinder(f) => {
                                let mut f = f;
                                f.set_pending(false);
                                Popup::FileFinder(f)
                            },
                            other => other,
                        };
                        self.popups.insert(k, p2);
                        assert(self.popups@ =~= old(self)@.popups.update(k as int, p2));
                    },
                    None => {},
                }
                let ghost mid = self@.popups;
                let mut m = "svn list: ".to_owned();
                push_str(&mut m, e.as_str());
                self.show_error(m);
                assert(self@.popups.drop_last() == mid);
                assert forall|i: int| 0 <= i < mid.len() implies #[trigger] self@.popups[i] == mid[i] by {
                    assert(self@.popups.drop_last()[i] == self@.popups[i]);
                }
            },
        }
    }

    /// A blame arrived (see [`blame_arrived`]).
    fn blame_loaded(&mut self, path: String, result: Result<Vec<BlameLine>, String>)
        requires
            old(self).wf(),
        ensures
            final(self).wf(),
            blame_arrived(old(self)@, final(self)@, path@, result),
    {
        let found = self.find_blame(path.as_str());
        proof {
            lemma_top_blame(self@.popups, path@);
        }
        match result {
            Ok(lines) => {
                match found {
                    Some(k) => {
                        let p = self.popups.remove(k);
                        let p2 = match p {
                            Popup::Blame(b) => {
                                let mut b = b;
                                b.update(lines);
                                Popup::Blame(b)
                            },
                            other => other,
                        };
                        self.popups.insert(k, p2);
                        assert(self.popups@ =~= old(self)@.popups.update(k as int, p2));
                    },
                    None => {},
                }
            },
            Err(e) => {
                match found {
                    Some(k) => {
                        let p = self.popups.remove(k);
                        let p2 = match p {
                            Popup::Blame(b) => {
                                let mut b = b;
                                b.pending = false;
                                Popup::Blame(b)
                            },
                            other => other,
                        };
                        self.popups.insert(k, p2);
                        assert(self.popups@ =~= old(self)@.popups.update(k as int, p2));
                    },
                    None => {},
                }
                let ghost mid = self@.popups;
                let mut m = "svn blame ".to_owned();
                push_str(&mut m, path.as_str());
                push_str(&mut m, ": ");
                push_str(&mut m, e.as_str());
                self.show_error(m);
                assert(self@.popups.drop_last() == mid);
                assert forall|i: int| 0 <= i < mid.len() implies #[trigger] self@.popups[i] == mid[i] by {
                    assert(self@.popups.drop_last()[i] == self@.popups[i]);
                }
            },
        }
    }

    /// Say `text`, then reload.
    fn tell_and_refresh(&mut self, text: String, is_error: bool)
        requires
            old(self).wf(),
        ensures
            final(self).wf(),
            told_and_refreshed(old(self)@, final(self)@, text@, is_error),
    {
        if is_error {
            self.show_error(text);
        } else {
            self.show_info(text);
        }
        self.refresh_after_op();
    }

    /// A commit finished (see [`commit_arrived`]).
    fn commit_loaded(&mut self, result: Result<String, String>)
        requires
            old(self).wf(),
        ensures
            final(self).wf(),
            commit_arrived(old(self)@, final(self)@, result),
    {
        match result {
            Ok(out) => {
                self.status.clear_staged();
                self.status.commit.clear();
                self.status.commit.unfocus();
                self.show_output("svn commit".to_owned(), out.as_str());
                self.refresh_after_op();
                // the commit bar's picker is fed from the log: reload it so
                // the new commit shows there too (the reload above only
                // covers the log when it is on screen)
                if self.active_tab != Tab::Log {
                    self.run(SvnCommand::Log(LOG_PAGE));
                }
            },
            Err(e) => {
                let mut m = "svn commit: ".to_owned();
                push_str(&mut m, e.as_str());
                self.show_error(m);
            },
        }
    }

    /// Paths were reverted (see [`revert_arrived`]).
    fn revert_loaded(&mut self, result: Result<Vec<String>, String>)
        requires
            old(self).wf(),
        ensures
            final(self).wf(),
            revert_arrived(old(self)@, final(self)@, result),
    {
        match result {
            Ok(paths) => {
                self.status.unset_staged(paths.as_slice());
                let ghost mid = self@;
                let msg = Msg::messages();
                self.tell_and_refresh(msg.revert_done.to_owned(), false);
                assert(told_and_refreshed(mid, self@, "Reverted"@, false));
            },
            Err(e) => {
                let mut m = "svn revert: ".to_owned();
                push_str(&mut m, e.as_str());
                self.show_error(m);
            },
        }
    }

    /// A background operation finished (see [`async_after`]).
    pub fn handle_async(&mut self, notif: AsyncSvnNotification)
        requires
            old(self).wf(),
        ensures
            final(self).wf(),
            async_after(old(self)@, final(self)@, notif),
    {
        self.pending = if self.pending > 0 {
            self.pending - 1
        } else {
            0
        };
        match notif {
            AsyncSvnNotification::Version(r) => self.version_arrived(r),
            AsyncSvnNotification::Info(r) => self.info_arrived(r),
            AsyncSvnNotification::RepoInfo(r) => self.repo_info_loaded(r),
            AsyncSvnNotification::Status(r) => self.status_loaded(r),
            AsyncSvnNotification::Diff { path, result } => self.file_diff_loaded(path, result),
            AsyncSvnNotification::Log(r) => self.log_arrived(r),
            AsyncSvnNotification::FileLog { path, result } => self.history_loaded(path, result),
            AsyncSvnNotification::ListFiles(r) => self.files_loaded(r),
            AsyncSvnNotification::RevisionDiff { revision, result } => self.revision_diff_loaded(revision, result),
            AsyncSvnNotification::RangeDiff { from, to, result } => self.range_diff_loaded(from, to, result),
            AsyncSvnNotification::Blame { path, result } => self.blame_loaded(path, result),
            AsyncSvnNotification::Update(r) => self.op_arrived("svn update", "svn update", r),
            AsyncSvnNotification::Commit(r) => self.commit_loaded(r),
            AsyncSvnNotification::Add(r) => match r {
                Ok(_) => {
                    // the tree's staged set stays as the user left it
                    let msg = Msg::messages();
                    self.tell_and_refresh(msg.add_done.to_owned(), false);
                },
                Err(e) => {
                    let mut m = "svn add: ".to_owned();
                    push_str(&mut m, e.as_str());
                    self.show_error(m);
                },
            },
            AsyncSvnNotification::Revert(r) => self.revert_loaded(r),
            AsyncSvnNotification::Resolve(r) => match r {
                Ok(p) => {
                    let msg = Msg::messages();
                    let mut m = msg.resolve_done.to_owned();
                    push_str(&mut m, ": ");
                    push_str(&mut m, p.as_str());
                    self.tell_and_refresh(m, false);
                },
                Err(e) => {
                    let mut m = "svn resolve: ".to_owned();
                    push_str(&mut m, e.as_str());
                    self.show_error(m);
                },
            },
            AsyncSvnNotification::UpdateToRevision(r) => self.op_arrived("svn update -r", "svn update", r),
            AsyncSvnNotification::LogSearch { pattern, result } => self.search_arrived(pattern, result),
            AsyncSvnNotification::LogAppend { before_rev, result } => self.append_arrived(before_rev, result),
            AsyncSvnNotification::CreatePatch(r) => match r {
                Ok(diff) => self.save_patch(diff),
                Err(e) => {
                    let mut m = "svn diff: ".to_owned();
                    push_str(&mut m, e.as_str());
                    self.show_error(m);
                },
            },
            AsyncSvnNotification::ApplyPatch(r) => self.op_arrived("svn patch", "svn patch", r),
        }
    }

    /// Take every queued request (see [`queued_requests`]).
    fn drain_requests(&mut self) -> (v: Vec<InternalEvent>)
        requires
            old(self).wf(),
        ensures
            final(self).wf(),
            v@ == queued_requests(old(self)@),
            drained(old(self)@, final(self)@),
    {
        let mut v: Vec<InternalEvent> = Vec::new();
        let n = self.popups.len();
        if n > 0 {
            let p = self.popups.pop().unwrap();
            let mut p = p;
            let mut top = p.take_events();
            self.popups.push(p);
            assert(self.popups@.drop_last() =~= old(self).popups@.drop_last());
            v.append(&mut top);
        }
        let ghost after_top = v@;
        let mut t = self.status.tree.take_events();
        v.append(&mut t);
        let mut c = self.status.commit.take_events();
        v.append(&mut c);
        let mut l = self.log.take_events();
        v.append(&mut l);
        let mut pa = self.patches.take_events();
        v.append(&mut pa);
        let mut own = self.queue.drain();
        v.append(&mut own);
        proof {
            let a = old(self)@;
            let top = if a.popups.len() > 0 {
                popup_queue(a.popups.last())
            } else {
                Seq::empty()
            };
            assert(after_top == top);
            assert(v@ =~= queued_requests(a));
            assert forall|i: int| 0 <= i < a.popups.len() && i != n - 1 implies #[trigger] self@.popups[i] == a.popups[i] by {
                assert(self@.popups.drop_last()[i] == self@.popups[i]);
                assert(a.popups.drop_last()[i] == a.popups[i]);
            }
        }
        v
    }

    /// Handle every queued request, in order (see [`queue_processed`]).
    pub fn handle_queue_events(&mut self)
        requires
            old(self).wf(),
        ensures
            final(self).wf(),
            queue_processed(old(self)@, final(self)@),
    {
        let evs = self.drain_requests();
        let ghost start = self@;
        let ghost all = evs@;
        assert(all.skip(0) =~= all);
        assert(all.len() == evs.len());
        let mut rest = evs;
        let mut i: usize = 0;
        while rest.len() > 0
            invariant
                self.wf(),
                i <= all.len(),
                all.len() <= usize::MAX,
                rest@ == all.skip(i as int),
                all_handled(start, self@, all.take(i as int)),
            decreases rest@.len(),
        {
            let ghost before = self@;
            let ev = rest.remove(0);
            assert(ev == all[i as int]);
            assert(rest@ =~= all.skip(i + 1));
            self.handle_internal(ev);
            proof {
                let t = all.take(i + 1);
                assert(t.drop_last() =~= all.take(i as int));
                assert(t.last() == all[i as int]);
                assert(internal_after(before, self@, t.last()));
            }
            i = i + 1;
        }
        assert(all.take(all.len() as int) =~= all);
        assert(drained(old(self)@, start));
    }

    /// Handle an input event (see [`input_after`]).
    pub fn handle_input(&mut self, ev: &Event) -> (r: Result<(), String>)
        requires
            old(self).wf(),
            old(self)@.popups.len() > 0 ==> popup_ok(old(self)@.popups.last()),
            old(self)@.status.commit@.cursor.1 + 1 < usize::MAX,
            ev matches Event::Paste(t) ==> old(self)@.status.commit@.cursor.1 + t@.len() <= usize::MAX
                && old(self)@.status.commit@.lines.len() + t@.len() <= usize::MAX,
        ensures
            final(self).wf(),
            r is Ok,
            input_after(old(self)@, final(self)@, *ev),
    {
        let n = self.popups.len();
        if n > 0 {
            let p = self.popups.pop().unwrap();
            let mut p = p;
            let _ = p.event(ev);
            self.popups.push(p);
            let ghost m1 = self@;
            proof {
                assert(self.popups@.drop_last() =~= old(self).popups@.drop_last());
                assert forall|i: int| 0 <= i < old(self)@.popups.len() && i != n - 1 implies #[trigger] self@.popups[i]
                    == old(self)@.popups[i] by {
                    assert(self@.popups.drop_last()[i] == self@.popups[i]);
                    assert(old(self)@.popups.drop_last()[i] == old(self)@.popups[i]);
                }
            }
            self.handle_queue_events();
            let ghost m2 = self@;
            if self.fatal_error.is_some() && self.popups.len() == 0 {
                self.quitting = true;
            }
            assert(queue_processed(m1, m2));
            return Ok(());
        }
        if self.fatal_error.is_some() {
            self.quitting = true;
            return Ok(());
        }
        let used = match self.active_tab {
            Tab::Status => {
                let ghost a = self.status;
                let c = match self.status.event(ev) {
                    Ok(st) => st.consumed,
                    Err(_) => false,
                };
                let ghost mid = self.status;
                if c {
                    true
                } else {
                    let g = self.status.handle_global_key(ev);
                    assert(crate::status::global_keyed(mid, self.status, *ev, g));
                    g
                }
            },
            Tab::Log => match self.log.event(ev) {
                Ok(st) => st.consumed,
                Err(_) => false,
            },
            Tab::Patches => match self.patches.event(ev) {
                Ok(st) => st.consumed,
                Err(_) => false,
            },
        };
        let ghost m = self@;
        assert(tab_took(old(self)@, m, *ev, used));
        if used {
            return Ok(());
        }
        let k = match ev {
            Event::Key(k) => k,
            _ => {
                return Ok(());
            },
        };
        if key_match(k, KeyAction::Quit) {
            self.quitting = true;
        } else if key_match(k, KeyAction::Help) {
            let p = Popup::help();
            self.push_popup(p);
        } else if key_match(k, KeyAction::OpenFileFinder) {
            // handled with the other requests right after this input
            self.queue.push(InternalEvent::OpenFileFinder);
        } else if key_match(k, KeyAction::SavePatch) {
            self.run(SvnCommand::CreatePatch);
        } else if key_match(k, KeyAction::RepoInfo) {
            self.run(SvnCommand::RepoInfo);
        } else if key_match(k, KeyAction::FocusNext) {
            match self.active_tab {
                // the status tab keeps Tab / Shift+Tab for its panes
                Tab::Status => {},
                Tab::Log => self.activate_tab(Tab::Patches),
                Tab::Patches => self.activate_tab(Tab::Status),
            }
        } else if key_match(k, KeyAction::FocusPrev) {
            match self.active_tab {
                Tab::Status => {},
                Tab::Log => self.activate_tab(Tab::Status),
                Tab::Patches => self.activate_tab(Tab::Log),
            }
        } else if key_match(k, KeyAction::SwitchTabStatus) {
            self.activate_tab(Tab::Status);
        } else if key_match(k, KeyAction::SwitchTabLog) {
            self.activate_tab(Tab::Log);
        } else if key_match(k, KeyAction::SwitchTabPatches) {
            self.activate_tab(Tab::Patches);
        }
        assert(app_key(m, self@, *ev));
        Ok(())
    }

    /// One turn of the app's loop for an input event: handle it, handle
    /// the requests it caused, ask for the selected file's diff.
    pub fn step_input(&mut self, ev: &Event) -> (r: Result<(), String>)
        requires
            old(self).wf(),
            old(self)@.popups.len() > 0 ==> popup_ok(old(self)@.popups.last()),
            old(self)@.status.commit@.cursor.1 + 1 < usize::MAX,
            ev matches Event::Paste(t) ==> old(self)@.status.commit@.cursor.1 + t@.len() <= usize::MAX
                && old(self)@.status.commit@.lines.len() + t@.len() <= usize::MAX,
        ensures
            final(self).wf(),
            r is Ok,
            input_step(old(self)@, final(self)@, *ev),
    {
        let _ = self.handle_input(ev);
        let ghost m1 = self@;
        self.handle_queue_events();
        let ghost m2 = self@;
        self.maybe_request_diff();
        assert(input_after(old(self)@, m1, *ev) && queue_processed(m1, m2) && diff_requested(m2, self@));
        Ok(())
    }

    /// One turn of the app's loop for a finished background operation.
    pub fn step_async(&mut self, notif: AsyncSvnNotification)
        requires
            old(self).wf(),
        ensures
            final(self).wf(),
            async_step(old(self)@, final(self)@, notif),
    {
        let ghost n = notif;
        self.handle_async(notif);
        let ghost m1 = self@;
        self.handle_queue_events();
        let ghost m2 = self@;
        self.maybe_request_diff();
        assert(async_after(old(self)@, m1, n) && queue_processed(m1, m2) && diff_requested(m2, self@));
    }

    /// Whether a diff asked for is to open full screen when it arrives.
    pub fn awaits_fullscreen(&self) -> (b: bool)
        ensures
            b == self@.fullscreen is Some,
    {
        self.pending_fullscreen.is_some()
    }

    /// Whether the top popup can take input (see [`popup_ok`]).
    pub fn top_popup_ok(&self) -> (b: bool)
        ensures
            b == (self@.popups.len() > 0 ==> popup_ok(self@.popups.last())),
    {
        let n = self.popups.len();
        if n == 0 {
            return true;
        }
        match &self.popups[n - 1] {
            Popup::Help(h) => h.scroll <= usize::MAX - 20,
            Popup::Diff(d) => d.view.search_enabled,
            _ => true,
        }
    }

    /// The spans of the status bar (see [`status_bar`]).
    pub fn status_bar_spans(&self) -> (r: Vec<InfoSpan>)
        requires
            self.wf(),
        ensures
            r@.map_values(|x: InfoSpan| span_view(x)) == status_bar(
                self@,
                crate::ui::spinner_text(self@.spinner as int % 10),
                match self@.tab {
                    Tab::Status => "space stage  a add  r revert  c commit  d diff  b blame  t history  / filter  u update  P patch"@,
                    Tab::Log => "enter/d diff  space mark  v info  o update-to  / search"@,
                    Tab::Patches => "enter/p preview  a apply  d delete  P new patch  F5/R refresh"@,
                },
            ),
    {
        proof {
            reveal_strlit("[");
            reveal_strlit("] ");
            reveal_strlit(" ");
            reveal_strlit("staged ");
        }
        let ghost a = self@;
        let ghost hv = match a.tab {
            Tab::Status => "space stage  a add  r revert  c commit  d diff  b blame  t history  / filter  u update  P patch"@,
            Tab::Log => "enter/d diff  space mark  v info  o update-to  / search"@,
            Tab::Patches => "enter/p preview  a apply  d delete  P new patch  F5/R refresh"@,
        };
        let ghost frame_v = crate::ui::spinner_text(a.spinner as int % 10);
        let ghost want = status_bar(a, frame_v, hv);
        let mut v: Vec<InfoSpan> = Vec::new();
        match &self.svn_info {
            Some(info) => {
                let mut t = "[".to_owned();
                let b = crate::ui::truncate(info.branch_label(), 40);
                push_str(&mut t, b.as_str());
                push_str(&mut t, "] ");
                assert(t@ =~= seq!['['] + crate::ui::spec_truncate(info.spec_branch_label(), 40) + "] "@);
                let sp = crate::spans::span(t, Role::Revision);
                v.push(sp);
                assert(v@.map_values(|x: InfoSpan| span_view(x)) =~= seq![span_view(sp)]);
            },
            None => {
                assert(v@.map_values(|x: InfoSpan| span_view(x)) =~= Seq::<(Seq<char>, Role)>::empty());
            },
        }
        let ghost branch = match a.info {
            Some(i) => seq![(seq!['['] + crate::ui::spec_truncate(i.spec_branch_label(), 40) + "] "@, Role::Revision)],
            None => Seq::empty(),
        };
        assert(v@.map_values(|x: InfoSpan| span_view(x)) =~= branch);
        let ghost v1 = v@;
        if self.pending > 0 {
            let frame = crate::ui::spinner_frame(self.spinner_frame);
            let mut f = frame.to_owned();
            push_str(&mut f, " ");
            let s1 = crate::spans::span(f, Role::Info);
            let mut ops = String::new();
            push_decimal(&mut ops, self.pending as u64);
            push_str(&mut ops, " op");
            let s2 = crate::spans::span(ops, Role::Info);
            let s3 = text_span(" ", Role::Plain);
            let ghost m0 = v@.map_values(|x: InfoSpan| span_view(x));
            v.push(s1);
            v.push(s2);
            v.push(s3);
            assert(v@.map_values(|x: InfoSpan| span_view(x)) =~= m0 + seq![span_view(s1), span_view(s2), span_view(s3)]);
            assert(span_view(s1).0 =~= frame_v + seq![' ']);
            assert(span_view(s2).0 =~= decimal(a.pending) + " op"@);
            assert(span_view(s3).0 =~= seq![' ']);
            assert(seq![span_view(s1), span_view(s2), span_view(s3)] =~= seq![
                (frame_v + seq![' '], Role::Info),
                (decimal(a.pending) + " op"@, Role::Info),
                (seq![' '], Role::Plain),
            ]);
        }
        let ghost busy = if a.pending > 0 {
            seq![
                (frame_v + seq![' '], Role::Info),
                (decimal(a.pending) + " op"@, Role::Info),
                (seq![' '], Role::Plain),
            ]
        } else {
            Seq::empty()
        };
        assert(v@.map_values(|x: InfoSpan| span_view(x)) =~= branch + busy);
        let staged = self.status.tree.staged_count();
        if staged > 0 {
            let mut t = "staged ".to_owned();
            push_decimal(&mut t, staged as u64);
            push_str(&mut t, " ");
            let sp = crate::spans::span(t, Role::Status('A'));
            assert(span_view(sp).0 =~= "staged "@ + decimal(a.status.tree@.staged.len()) + seq![' ']);
            let ghost m0 = v@.map_values(|x: InfoSpan| span_view(x));
            v.push(sp);
            assert(v@.map_values(|x: InfoSpan| span_view(x)) =~= m0.push(span_view(sp)));
        }
        let ghost stg = if a.status.tree@.staged.len() > 0 {
            seq![("staged "@ + decimal(a.status.tree@.staged.len()) + seq![' '], Role::Status('A'))]
        } else {
            Seq::empty()
        };
        assert(v@.map_values(|x: InfoSpan| span_view(x)) =~= branch + busy + stg);
        let hints = match self.active_tab {
            Tab::Status => crate::status::hints(),
            Tab::Log => crate::log::hints(),
            Tab::Patches => crate::patches::hints(),
        };
        let mut h = hints.to_owned();
        push_str(&mut h, "  ? help  i info  q quit  [1]status [2]log [3]patches");
        let sp = crate::spans::span(h, Role::Dim);
        let ghost m0 = v@.map_values(|x: InfoSpan| span_view(x));
        v.push(sp);
        assert(v@.map_values(|x: InfoSpan| span_view(x)) =~= m0.push(span_view(sp)));
        assert(v@.map_values(|x: InfoSpan| span_view(x)) =~= want);
        v
    }
}

} // verus!
