use svnui::app::{App, Effect, SvnCommand};
use svnui::keys::{Event, KeyCode, KeyEvent};
use svnui::models::{BlameLine, LogEntry, StatusEntry, SvnInfo};
use svnui::popups::Popup;
use svnui::queue::{InternalEvent, Tab};
use svnui::spans::{InfoSpan, Role};
use svnui::status::PaneFocus;
use svnui::svn::AsyncSvnNotification;

fn test_info() -> SvnInfo {
    SvnInfo {
        url: "file:///repo/trunk".into(),
        branch: "trunk".into(),
        revision: 3,
        wc_root: "/home/user/wc".into(),
        repo_root: "file:///repo".into(),
        uuid: "12345678-1234-1234-1234-123456789012".into(),
        last_author: "alice".into(),
        last_rev: 3,
        last_date: "2026-01-01 10:00:00 +0000".into(),
    }
}

fn entry(status: char, path: &str) -> StatusEntry {
    StatusEntry { status, props_status: ' ', tree_conflict: ' ', path: path.to_string(), is_dir: false }
}

fn log_entry(rev: u64, msg: &str) -> LogEntry {
    LogEntry {
        revision: rev,
        author: "alice".into(),
        date: "2026-01-01".into(),
        line_count: 1,
        changed: vec![('M', "src/main.rs".into())],
        message: msg.into(),
    }
}

fn new_app() -> App {
    App::new(Some("/work/wc".into()), "/tmp/patches".into(), Vec::new())
}

fn key(code: KeyCode) -> Event {
    Event::Key(KeyEvent::plain(code))
}

fn commands(app: &mut App) -> Vec<SvnCommand> {
    app.take_effects()
        .into_iter()
        .filter_map(|e| match e {
            Effect::Svn(c) => Some(c),
            _ => None,
        })
        .collect()
}

fn line_text(l: &[InfoSpan]) -> String {
    l.iter().map(|s| s.text.as_str()).collect()
}

#[test]
fn status_log_diff_updates_components() {
    let mut app = new_app();
    app.step_async(AsyncSvnNotification::Status(Ok(vec![entry('M', "a.txt"), entry('?', "b.txt")])));
    assert_eq!(app.status.tree.selection_path().as_deref(), Some("a.txt"));
    // the diff of the selection is asked for and applies when it arrives
    let cmds = commands(&mut app);
    assert!(cmds.iter().any(|c| matches!(c, SvnCommand::Diff(p) if p == "a.txt")));
    app.step_async(AsyncSvnNotification::Diff {
        path: "a.txt".into(),
        result: Ok("Index: a.txt\n@@ -1 +1 @@\n-old\n+new\n".into()),
    });
    assert!(!app.status.diff.pending);

    app.step_async(AsyncSvnNotification::Log(Ok(vec![log_entry(3, "three"), log_entry(2, "two")])));
    assert_eq!(app.log.selection_revision(), Some(3));

    // error paths
    app.step_async(AsyncSvnNotification::Status(Err("boom".into())));
    assert!(matches!(app.popups.last(), Some(Popup::Msg(_))));
    app.step_async(AsyncSvnNotification::Log(Err("boom".into())));
    app.step_async(AsyncSvnNotification::Diff { path: "a.txt".into(), result: Err("boom".into()) });
}

#[test]
fn revision_diff_and_blame_flow() {
    let mut app = new_app();
    app.step_async(AsyncSvnNotification::Status(Ok(vec![entry('M', "main.rs")])));
    let cmds = commands(&mut app);
    assert!(cmds.iter().any(|c| matches!(c, SvnCommand::Diff(p) if p == "main.rs")));
    // a revision diff asked for through the requests
    app.handle_internal(InternalEvent::RequestRevisionDiff(1));
    let cmds = commands(&mut app);
    assert!(matches!(cmds.as_slice(), [SvnCommand::RevisionDiff(1)]));
    app.step_async(AsyncSvnNotification::RevisionDiff {
        revision: 1,
        result: Ok("Index: x\n===\n@@ -1 +1 @@\n-a\n+b\n".into()),
    });
    assert!(matches!(app.popups.last(), Some(Popup::Diff(_))));

    // blame request → popup + async load
    app.popups.clear();
    app.handle_internal(InternalEvent::RequestBlame("main.rs".into()));
    assert!(matches!(app.popups.last(), Some(Popup::Blame(_))));
    let cmds = commands(&mut app);
    assert!(matches!(cmds.as_slice(), [SvnCommand::Blame(p)] if p == "main.rs"));
    app.step_async(AsyncSvnNotification::Blame {
        path: "main.rs".into(),
        result: Ok(vec![BlameLine {
            revision: Some(1),
            author: "kenshin".into(),
            content: "fn main() {}".into(),
        }]),
    });
    let has_data = app.popups.iter().any(|p| match p {
        Popup::Blame(b) => !b.pending && b.lines.len() == 1,
        _ => false,
    });
    assert!(has_data);
}

#[test]
fn show_commit_info_opens_output_popup() {
    let mut app = new_app();
    let mut e = log_entry(5, "full message\nsecond line");
    e.author = "bob".into();
    app.handle_internal(InternalEvent::ShowCommitInfo(e));
    let Some(Popup::Output(p)) = app.popups.last() else {
        panic!("expected output popup");
    };
    assert_eq!(p.title, "Commit r5");
    let text: String = p.lines.iter().map(|l| line_text(l)).collect();
    assert!(text.contains("r5 | bob | 2026-01-01"), "{text}");
    assert!(text.contains("Changed paths:"), "{text}");
    assert!(text.contains("M  src/main.rs"), "{text}");
    assert!(text.contains("full message"), "{text}");
    assert!(text.contains("second line"), "{text}");
    // roles: revision, author, and the action char of a changed path
    let header = &p.lines[0];
    assert_eq!(header[0].role, Role::Revision);
    assert_eq!(header[2].role, Role::Author);
    let changed = p.lines.iter().find(|l| line_text(l).contains("src/main.rs")).unwrap();
    assert_eq!(changed[0].role, Role::Action('M'));
}

#[test]
fn file_diff_fullscreen_matches_selection() {
    let mut app = new_app();
    app.step_async(AsyncSvnNotification::Status(Ok(vec![entry('M', "a.txt")])));
    let _ = commands(&mut app); // diff request for a.txt
    app.handle_internal(InternalEvent::RequestFileDiff);
    let cmds = commands(&mut app);
    assert!(matches!(cmds.as_slice(), [SvnCommand::Diff(p)] if p == "a.txt"));
    app.step_async(AsyncSvnNotification::Diff {
        path: "a.txt".into(),
        result: Ok("Index: a.txt\n===\n@@ -1 +1 @@\n-a\n+b\n".into()),
    });
    assert!(matches!(app.popups.last(), Some(Popup::Diff(_))));
}

#[test]
fn handle_input_routing() {
    let mut app = new_app();
    app.step_async(AsyncSvnNotification::Status(Ok(vec![entry('M', "a.txt")])));

    // q quits
    app.handle_input(&key(KeyCode::Char('q'))).unwrap();
    assert!(app.quitting);
    app.quitting = false;

    // '?' is consumed by the tree and asks for the help popup
    app.handle_input(&key(KeyCode::Char('?'))).unwrap();
    app.handle_queue_events();
    assert!(!app.popups.is_empty());
    app.handle_input(&key(KeyCode::Char('q'))).unwrap();
    assert!(!app.quitting, "popup blocks quit");

    // Esc closes the help popup
    app.handle_input(&key(KeyCode::Esc)).unwrap();
    app.handle_queue_events();
    assert!(app.popups.is_empty());

    // Tab cycles focus in status tab
    app.handle_input(&key(KeyCode::Tab)).unwrap();
    assert_eq!(app.status.focus, PaneFocus::Diff);
    app.handle_input(&key(KeyCode::Tab)).unwrap();
    assert_eq!(app.status.focus, PaneFocus::Commit);

    // Esc returns focus to the tree, then number keys switch tabs
    app.handle_input(&key(KeyCode::Esc)).unwrap();
    assert_eq!(app.status.focus, PaneFocus::Tree);
    app.handle_input(&key(KeyCode::Char('2'))).unwrap();
    app.handle_queue_events();
    assert_eq!(app.active_tab, Tab::Log);
    app.handle_input(&key(KeyCode::Char('1'))).unwrap();
    app.handle_queue_events();
    assert_eq!(app.active_tab, Tab::Status);
}

#[test]
fn fatal_error_quits_after_popup_dismissed() {
    let mut app = new_app();
    app.fatal_error = Some("fatal".into());
    // popup still open: keys go to the popup; after it closes we quit
    app.show_error("fatal".into());
    app.handle_input(&key(KeyCode::Char('x'))).unwrap();
    app.handle_queue_events();
    assert!(app.popups.is_empty());
    assert!(app.quitting);
}

#[test]
fn tick_advances_spinner() {
    let mut app = new_app();
    let before = app.spinner_frame;
    app.tick();
    assert_eq!(app.spinner_frame, before + 1);
}

#[test]
fn maybe_request_diff_only_in_status_tab() {
    let mut app = new_app();
    app.active_tab = Tab::Log;
    app.maybe_request_diff();
    assert!(app.pending == 0);
    app.active_tab = Tab::Status;
    app.step_async(AsyncSvnNotification::Status(Ok(vec![entry('M', "a.txt")])));
    let cmds = commands(&mut app);
    assert!(cmds.iter().any(|c| matches!(c, SvnCommand::Diff(_))));
}

#[test]
fn refresh_after_op_also_refreshes_log_in_log_tab() {
    let mut app = new_app();
    app.active_tab = Tab::Log;
    app.refresh_after_op();
    let cmds = commands(&mut app);
    assert_eq!(cmds.len(), 2);
    assert!(cmds.iter().any(|c| matches!(c, SvnCommand::Status)));
    assert!(cmds.iter().any(|c| matches!(c, SvnCommand::Log(_))));
}

#[test]
fn info_stores_branch_and_status_bar_shows_it() {
    let mut app = new_app();
    app.step_async(AsyncSvnNotification::Info(Ok(test_info())));
    assert_eq!(app.svn_info.as_ref().unwrap().branch, "trunk");
    let bar = line_text(&app.status_bar_spans());
    assert!(bar.contains("[trunk]"), "{bar}");
}

fn status_bar(app: &App) -> String {
    line_text(&app.status_bar_spans())
}

fn all_text(lines: &[Vec<InfoSpan>]) -> String {
    lines.iter().map(|l| line_text(l)).collect::<Vec<_>>().join("\n")
}

#[test]
fn repo_info_key_shows_output_popup() {
    let mut app = new_app();
    // 'i' is a global app-level key
    app.handle_input(&key(KeyCode::Char('i'))).unwrap();
    assert!(app.pending > 0);
    let cmds = commands(&mut app);
    assert!(matches!(cmds.as_slice(), [SvnCommand::RepoInfo]));
    // the composed overview lands in a scrollable output popup
    app.step_async(AsyncSvnNotification::Status(Ok(vec![entry('M', "a.txt"), entry('?', "b.txt")])));
    app.status.tree.set_staged(&["a.txt".into()]);
    let mut head = test_info();
    head.revision = 10;
    app.handle_async(AsyncSvnNotification::RepoInfo(Ok(Box::new((test_info(), Some(head))))));
    let Some(Popup::Output(o)) = app.popups.last() else {
        panic!("expected output popup");
    };
    assert_eq!(o.title, "Repo info");
    let text = all_text(&o.lines);
    assert!(text.contains("URL:           file:///repo/trunk"), "{text}");
    assert!(text.contains("HEAD:          r10"), "{text}");
    assert!(text.contains("7 revisions behind"), "{text}");
    assert!(text.contains("1 modified, 1 unversioned"), "{text}");
    assert!(text.contains("Staged for commit: 1"), "{text}");
    // roles: the behind warning, and the counts by their status
    let behind = o.lines.iter().find(|l| line_text(l).contains("revisions behind")).unwrap();
    assert_eq!(behind.last().unwrap().role, Role::Behind);
    let changes = o.lines.iter().find(|l| line_text(l).contains("modified")).unwrap();
    assert_eq!(changes[1].role, Role::Status('M'), "modified count");
    assert_eq!(changes[3].role, Role::Status('?'), "unversioned count");
}

#[test]
fn log_search_popup_flow() {
    let mut app = new_app();
    app.step_async(AsyncSvnNotification::Log(Ok(vec![log_entry(3, "third"), log_entry(2, "second")])));

    // OpenLogSearch opens the popup pre-filled with the current filter
    app.log.set_filter("thi".into());
    app.handle_internal(InternalEvent::OpenLogSearch);
    assert!(matches!(app.popups.last(), Some(Popup::LogSearch(_))));

    // typing in the popup live-filters the loaded list
    app.handle_internal(InternalEvent::LogSearchInput("second".into()));
    assert_eq!(app.log.selection_revision(), Some(2));

    // Enter in the popup → full-history search
    app.popups.clear();
    let _ = commands(&mut app);
    app.handle_internal(InternalEvent::SearchLog("second".into()));
    let cmds = commands(&mut app);
    assert!(matches!(cmds.as_slice(), [SvnCommand::LogSearch(p)] if p == "second"));

    // results replace the list; errors open a message popup
    app.step_async(AsyncSvnNotification::LogSearch {
        pattern: "second".into(),
        result: Ok(vec![log_entry(2, "second")]),
    });
    assert_eq!(app.log.selection_revision(), Some(2));
    app.step_async(AsyncSvnNotification::LogSearch { pattern: "second".into(), result: Err("boom".into()) });
    assert!(matches!(app.popups.last(), Some(Popup::Msg(_))));
}

#[test]
fn status_filter_popup_flow() {
    let mut app = new_app();
    app.step_async(AsyncSvnNotification::Status(Ok(vec![entry('M', "alpha.txt"), entry('?', "beta.txt")])));

    // OpenStatusFilter opens the popup pre-filled with the current filter
    app.status.tree.set_filter("al".into());
    app.handle_internal(InternalEvent::OpenStatusFilter);
    assert!(matches!(app.popups.last(), Some(Popup::StatusFilter(_))));

    // typing in the popup live-filters the status tree
    app.handle_internal(InternalEvent::StatusFilterInput("beta".into()));
    assert_eq!(app.status.tree.filter(), "beta");
    assert_eq!(app.status.tree.visible_len(), 1);
    assert_eq!(app.status.tree.selection_path().as_deref(), Some("beta.txt"));

    // Esc in the status tab with an active filter clears it
    app.popups.clear();
    app.handle_input(&key(KeyCode::Esc)).unwrap();
    assert!(app.status.tree.filter().is_empty());
    assert_eq!(app.status.tree.visible_len(), 2);
}

#[test]
fn typing_in_search_popup_clears_server_search() {
    let mut app = new_app();
    app.step_async(AsyncSvnNotification::Log(Ok(vec![log_entry(3, "third"), log_entry(2, "second")])));
    // run a full-history search and apply its results
    app.handle_internal(InternalEvent::SearchLog("second".into()));
    let _ = commands(&mut app);
    app.step_async(AsyncSvnNotification::LogSearch {
        pattern: "second".into(),
        result: Ok(vec![log_entry(2, "second")]),
    });
    assert!(app.log.search_pattern().is_some());
    // typing in the popup switches back to live filtering
    app.handle_internal(InternalEvent::LogSearchInput("thi".into()));
    assert!(app.log.search_pattern().is_none());
    assert_eq!(app.log.filter(), "thi");
}

#[test]
fn range_diff_flow() {
    let mut app = new_app();
    app.handle_internal(InternalEvent::RequestRangeDiff(vec![3, 1, 2]));
    let cmds = commands(&mut app);
    assert!(matches!(cmds.as_slice(), [SvnCommand::RangeDiff(1, 3)]));
    app.step_async(AsyncSvnNotification::RangeDiff {
        from: 1,
        to: 3,
        result: Ok("Index: a\n===\n@@ -1 +1 @@\n-a\n+b\n".into()),
    });
    assert!(matches!(app.popups.last(), Some(Popup::Diff(_))));
    // error path clears the pending request
    app.handle_internal(InternalEvent::RequestRangeDiff(vec![1, 2]));
    let _ = commands(&mut app);
    assert!(app.awaits_fullscreen());
    app.step_async(AsyncSvnNotification::RangeDiff { from: 1, to: 2, result: Err("boom".into()) });
    assert!(!app.awaits_fullscreen());
}

#[test]
fn file_history_flow() {
    let mut app = new_app();
    app.step_async(AsyncSvnNotification::Status(Ok(vec![entry('M', "main.rs")])));
    let cmds = commands(&mut app);
    assert!(cmds.iter().any(|c| matches!(c, SvnCommand::Diff(_))));
    // request history of the selected file
    app.handle_internal(InternalEvent::RequestFileHistory);
    assert!(matches!(app.popups.last(), Some(Popup::FileLog(_))));
    let cmds = commands(&mut app);
    assert!(matches!(cmds.as_slice(), [SvnCommand::FileLog(p, _)] if p == "main.rs"));
    app.step_async(AsyncSvnNotification::FileLog {
        path: "main.rs".into(),
        result: Ok(vec![log_entry(3, "three")]),
    });
    let loaded = app
        .popups
        .iter()
        .any(|p| matches!(p, Popup::FileLog(fl) if !fl.pending() && fl.entries().len() == 1));
    assert!(loaded);
    // error path: popup leaves Loading state, error is shown
    app.step_async(AsyncSvnNotification::FileLog { path: "main.rs".into(), result: Err("boom".into()) });
    assert!(app.popups.iter().any(|p| matches!(p, Popup::Msg(_))));

    // unversioned file → error message, no popup
    app.popups.clear();
    app.step_async(AsyncSvnNotification::Status(Ok(vec![entry('?', "new.txt")])));
    let cmds = commands(&mut app);
    assert!(cmds.iter().any(|c| matches!(c, SvnCommand::Diff(_))));
    app.handle_internal(InternalEvent::RequestFileHistory);
    assert!(matches!(app.popups.last(), Some(Popup::Msg(_))));
    assert!(!app.popups.iter().any(|p| matches!(p, Popup::FileLog(_))));
}

#[test]
fn file_finder_flow() {
    let mut app = new_app();
    app.handle_internal(InternalEvent::OpenFileFinder);
    assert!(matches!(app.popups.last(), Some(Popup::FileFinder(_))));
    let cmds = commands(&mut app);
    assert!(matches!(cmds.as_slice(), [SvnCommand::ListFiles]));
    app.step_async(AsyncSvnNotification::ListFiles(Ok(vec!["src/main.rs".into()])));
    let loaded = app
        .popups
        .iter()
        .any(|p| matches!(p, Popup::FileFinder(ff) if !ff.pending() && ff.files().len() == 1));
    assert!(loaded);
    // Enter on the single file: finder closes, file history opens
    app.handle_input(&key(KeyCode::Enter)).unwrap();
    assert!(matches!(app.popups.last(), Some(Popup::FileLog(_))));
    let cmds = commands(&mut app);
    assert!(matches!(cmds.as_slice(), [SvnCommand::FileLog(p, _)] if p == "src/main.rs"));
    // error path: finder leaves Loading state
    app.handle_internal(InternalEvent::OpenFileFinder);
    let _ = commands(&mut app);
    app.step_async(AsyncSvnNotification::ListFiles(Err("boom".into())));
    let unpend = app.popups.iter().any(|p| matches!(p, Popup::FileFinder(ff) if !ff.pending()));
    assert!(unpend);
}

#[test]
fn ctrl_p_opens_file_finder() {
    let mut app = new_app();
    let ctrl_p = Event::Key(KeyEvent { code: KeyCode::Char('p'), ctrl: true, alt: false, shift: false });
    app.handle_input(&ctrl_p).unwrap();
    app.handle_queue_events();
    assert!(matches!(app.popups.last(), Some(Popup::FileFinder(_))));
}

#[test]
fn log_load_stocks_commit_history_picker() {
    let mut app = new_app();
    app.step_async(AsyncSvnNotification::Log(Ok(vec![log_entry(3, "third"), log_entry(2, "second")])));
    // focus the commit input and press Tab → the picker opens
    app.handle_internal(InternalEvent::OpenCommit);
    app.handle_input(&key(KeyCode::Tab)).unwrap();
    assert!(app.status.commit.history_open());
    let history = app.status.commit.history();
    assert!(history.iter().any(|m| m == "third"), "{history:?}");
    assert!(history.iter().any(|m| m == "second"), "{history:?}");
}

#[test]
fn save_patch_with_clean_wc_writes_nothing() {
    let mut app = new_app();
    app.handle_input(&key(KeyCode::Char('P'))).unwrap();
    let cmds = commands(&mut app);
    assert!(matches!(cmds.as_slice(), [SvnCommand::CreatePatch]));
    app.step_async(AsyncSvnNotification::CreatePatch(Ok(String::new())));
    // info popup, and no patch file is asked for
    let Some(Popup::Msg(m)) = app.popups.last() else {
        panic!("expected info popup");
    };
    assert!(m.message.contains("nothing to save"), "{}", m.message);
    assert!(!m.is_error);
    assert!(!app.take_effects().iter().any(|e| matches!(e, Effect::SavePatch(_))));

    // error path: a failed `svn diff` shows an error popup
    app.step_async(AsyncSvnNotification::CreatePatch(Err("boom".into())));
    let Some(Popup::Msg(m)) = app.popups.last() else {
        panic!("expected error popup");
    };
    assert!(m.is_error);

    // a failed `svn patch` shows an error and still refreshes status
    app.step_async(AsyncSvnNotification::ApplyPatch(Err("boom".into())));
    let Some(Popup::Msg(m)) = app.popups.last() else {
        panic!("expected error popup");
    };
    assert!(m.is_error);
    let cmds = commands(&mut app);
    assert!(cmds.iter().any(|c| matches!(c, SvnCommand::Status)));
}

#[test]
fn preview_patch_rejects_huge_files() {
    let mut app = new_app();
    app.handle_internal(InternalEvent::PreviewPatch("/tmp/patches/big.patch".into()));
    let effects = app.take_effects();
    assert!(matches!(effects.as_slice(), [Effect::StatPatch(p)] if p == "/tmp/patches/big.patch"));
    app.patch_stat(
        "/tmp/patches/big.patch".into(),
        Ok((svnui::app::MAX_PATCH_PREVIEW_BYTES + 1, "8.0 MiB".into())),
    );
    let Some(Popup::Msg(m)) = app.popups.last() else {
        panic!("expected error popup");
    };
    assert!(m.is_error);
    assert!(m.message.contains("too large to preview"), "{}", m.message);
    assert!(m.message.contains("big.patch"), "{}", m.message);
}

#[test]
fn patches_tab_switching_and_status_bar() {
    let mut app = new_app();
    // '2' is asked for by the tree; Tab cycles log → patches → status
    app.handle_input(&key(KeyCode::Char('2'))).unwrap();
    app.handle_queue_events();
    assert_eq!(app.active_tab, Tab::Log);
    app.handle_input(&key(KeyCode::Tab)).unwrap();
    assert_eq!(app.active_tab, Tab::Patches);
    app.handle_input(&key(KeyCode::Tab)).unwrap();
    assert_eq!(app.active_tab, Tab::Status);
    // Shift+Tab from patches goes back to the log tab
    app.handle_input(&key(KeyCode::Char('3'))).unwrap();
    app.handle_queue_events();
    assert_eq!(app.active_tab, Tab::Patches);
    let backtab = Event::Key(KeyEvent { code: KeyCode::BackTab, ctrl: false, alt: false, shift: true });
    app.handle_input(&backtab).unwrap();
    assert_eq!(app.active_tab, Tab::Log);

    // the status bar lists the tabs and advertises per-tab keys
    app.handle_input(&key(KeyCode::Char('3'))).unwrap();
    app.handle_queue_events();
    let s = status_bar(&app);
    assert!(s.contains("[1]status [2]log [3]patches"), "{s}");
    assert!(s.contains("a apply"), "{s}");
    assert!(s.contains("d delete"), "{s}");
    assert!(!s.contains("c commit"), "{s}");
    assert!(!s.contains("u update"), "{s}");

    app.handle_input(&key(KeyCode::Char('2'))).unwrap();
    app.handle_queue_events();
    let s = status_bar(&app);
    assert!(s.contains("v info"), "{s}");
    assert!(s.contains("o update-to"), "{s}");
    assert!(!s.contains("c commit"), "{s}");
    assert!(!s.contains("a apply"), "{s}");

    app.handle_input(&key(KeyCode::Char('1'))).unwrap();
    app.handle_queue_events();
    let s = status_bar(&app);
    assert!(s.contains("c commit"), "{s}");
    assert!(s.contains("u update"), "{s}");
    assert!(s.contains("P patch"), "{s}");
    assert!(!s.contains("v info"), "{s}");
    assert!(!s.contains("a apply"), "{s}");
}
