use svnui::app::{App, Effect, SvnCommand};
use svnui::keys::{Event, KeyCode, KeyEvent};
use svnui::models::{LogEntry, StatusEntry, SvnInfo};
use svnui::popups::Popup;
use svnui::queue::{ConfirmAction, InternalEvent, NeedsUpdate, Tab};
use svnui::svn::AsyncSvnNotification;

fn test_info() -> SvnInfo {
    SvnInfo {
        url: "file:///repo/trunk".into(),
        branch: "trunk".into(),
        revision: 3,
        wc_root: "/home/user/wc".into(),
        repo_root: "file:///repo".into(),
        uuid: "12345678-1234-1234-1234-123456789012".into(),
        last_author: "alice".into(),
        last_rev: 3,
        last_date: "2026-01-01 10:00:00 +0000".into(),
    }
}

fn entry(status: char, path: &str) -> StatusEntry {
    StatusEntry { status, props_status: ' ', tree_conflict: ' ', path: path.to_string(), is_dir: false }
}

fn log_entry(rev: u64, msg: &str) -> LogEntry {
    LogEntry {
        revision: rev,
        author: "alice".into(),
        date: "2026-01-01".into(),
        line_count: 1,
        changed: vec![('M', "src/main.rs".into())],
        message: msg.into(),
    }
}

fn app() -> App {
    App::new(Some("/work/wc".into()), "/tmp/patches".into(), Vec::new())
}

fn key(code: KeyCode) -> Event {
    Event::Key(KeyEvent::plain(code))
}

fn svn_cmds(app: &mut App) -> Vec<SvnCommand> {
    app.take_effects()
        .into_iter()
        .filter_map(|e| match e {
            Effect::Svn(c) => Some(c),
            _ => None,
        })
        .collect()
}

fn confirm_text(app: &App) -> String {
    match app.popups.last() {
        Some(Popup::Confirm(p)) => p.message().to_string(),
        _ => panic!("expected confirm popup"),
    }
}

fn msg_popup(app: &App) -> (String, bool) {
    match app.popups.last() {
        Some(Popup::Msg(m)) => (m.message.clone(), m.is_error),
        _ => panic!("expected message popup"),
    }
}

#[test]
fn start_checks_info_and_loads() {
    let mut a = app();
    a.start();
    let cmds = svn_cmds(&mut a);
    assert!(matches!(cmds.as_slice(), [SvnCommand::CheckInfo, SvnCommand::Version]));
    assert_eq!(a.pending, 2);
    a.handle_async(AsyncSvnNotification::Info(Ok(test_info())));
    let cmds = svn_cmds(&mut a);
    assert!(matches!(cmds.as_slice(), [SvnCommand::Status, SvnCommand::Log(50)]));
    assert_eq!(a.pending, 3);
}

#[test]
fn old_svn_version_warns() {
    let mut a = app();
    a.handle_async(AsyncSvnNotification::Version(Ok("1.7.19".into())));
    assert_eq!(a.svn_version.as_deref(), Some("1.7.19"));
    let (m, err) = msg_popup(&a);
    assert!(err);
    assert!(m.contains("too old"), "{m}");
    assert!(m.contains("need >= 1.8.0"), "{m}");
    assert!(a.fatal_error.is_none());
    a.popups.clear();
    a.handle_async(AsyncSvnNotification::Version(Ok("???".into())));
    let (m, _) = msg_popup(&a);
    assert!(m.contains("unparseable \"???\""), "{m}");
    a.popups.clear();
    a.handle_async(AsyncSvnNotification::Version(Err("no svn".into())));
    assert!(a.popups.is_empty());
    a.handle_async(AsyncSvnNotification::Version(Ok("1.14.5".into())));
    assert!(a.popups.is_empty());
    assert_eq!(a.svn_version.as_deref(), Some("1.14.5"));
}

#[test]
fn fatal_info_error_sets_flag_and_msg() {
    let mut a = app();
    a.handle_async(AsyncSvnNotification::Info(Err("not a wc".into())));
    assert!(a.fatal_error.is_some());
    assert_eq!(a.popups.len(), 1);
    // any key dismisses the message; then the app quits
    a.handle_input(&key(KeyCode::Char('x'))).unwrap();
    assert!(a.popups.is_empty());
    assert!(a.quitting);
}

#[test]
fn confirm_event_opens_popup_and_validates_message() {
    let mut a = app();
    a.handle_internal(InternalEvent::Confirm(ConfirmAction::Commit { message: "  ".into(), paths: vec![] }));
    assert_eq!(msg_popup(&a).0, "Commit message is empty");
    a.popups.clear();
    // nothing staged -> commit is refused, no confirm popup
    a.handle_internal(InternalEvent::Confirm(ConfirmAction::Commit { message: "good".into(), paths: vec![] }));
    assert!(msg_popup(&a).1);
    a.popups.clear();
    a.status.set_staged(&["a.txt".into()]);
    a.handle_internal(InternalEvent::Confirm(ConfirmAction::Commit { message: "good".into(), paths: vec![] }));
    assert!(matches!(a.popups.last(), Some(Popup::Confirm(_))));
    a.popups.clear();
    for action in [
        ConfirmAction::Revert(vec!["a.txt".into()]),
        ConfirmAction::Update,
        ConfirmAction::Resolve("a.txt".into()),
        ConfirmAction::UpdateToRevision(4),
    ] {
        a.handle_internal(InternalEvent::Confirm(action));
        assert!(matches!(a.popups.last(), Some(Popup::Confirm(_))));
        a.popups.clear();
    }
}

#[test]
fn commit_confirm_shows_branch_and_file_list() {
    let mut a = app();
    a.handle_async(AsyncSvnNotification::Info(Ok(test_info())));
    a.handle_async(AsyncSvnNotification::Status(Ok(vec![entry('M', "a.txt"), entry('M', "src/b.rs")])));
    a.status.set_staged(&["src/b.rs".into()]);
    a.handle_internal(InternalEvent::Confirm(ConfirmAction::Commit { message: "my commit".into(), paths: vec![] }));
    let m = confirm_text(&a);
    assert!(m.contains("Target branch: trunk"), "{m}");
    assert!(m.contains("M src/b.rs"), "{m}");
    assert!(!m.contains("a.txt"), "{m}");
    assert!(m.contains("\"my commit\""), "{m}");
}

#[test]
fn commit_confirm_truncates_long_file_list() {
    let mut a = app();
    a.handle_async(AsyncSvnNotification::Info(Ok(test_info())));
    let names: Vec<String> = (0..10).map(|i| format!("f{i:02}.txt")).collect();
    a.handle_async(AsyncSvnNotification::Status(Ok(names.iter().map(|n| entry('M', n)).collect())));
    a.status.set_staged(&names);
    a.handle_internal(InternalEvent::Confirm(ConfirmAction::Commit { message: "many files".into(), paths: vec![] }));
    let m = confirm_text(&a);
    assert!(m.contains("(10 files)"), "{m}");
    assert!(m.contains("  M f00.txt"), "{m}");
    assert!(m.contains("  M f07.txt"), "{m}");
    assert!(!m.contains("f08.txt"), "{m}");
    assert!(m.contains("… and 2 more"), "{m}");
}

#[test]
fn patch_confirm_messages_name_the_patch_file() {
    let mut a = app();
    a.handle_internal(InternalEvent::Confirm(ConfirmAction::ApplyPatch("/patches/fix-thing.patch".into())));
    let m = confirm_text(&a);
    assert!(m.contains("Apply this patch"), "{m}");
    assert!(m.ends_with("\nfix-thing.patch"), "{m}");
    a.popups.clear();
    a.handle_internal(InternalEvent::Confirm(ConfirmAction::DeletePatch("/patches/fix-thing.patch".into())));
    let m = confirm_text(&a);
    assert!(m.contains("Delete this patch file?"), "{m}");
    assert!(m.contains("fix-thing.patch"), "{m}");
}

#[test]
fn update_confirm_shows_working_copy_path() {
    let mut a = app();
    a.handle_async(AsyncSvnNotification::Info(Ok(test_info())));
    a.handle_internal(InternalEvent::Confirm(ConfirmAction::Update));
    assert!(confirm_text(&a).contains("Working copy: /home/user/wc"));
    let mut b = app();
    b.handle_internal(InternalEvent::Confirm(ConfirmAction::UpdateToRevision(2)));
    let m = confirm_text(&b);
    assert!(m.contains("(r2)"), "{m}");
    assert!(m.contains("Working copy: /work/wc"), "{m}");
}

#[test]
fn log_load_more_flow() {
    let mut a = app();
    a.handle_async(AsyncSvnNotification::Log(Ok(vec![log_entry(3, "third"), log_entry(2, "second")])));
    a.take_effects();
    a.handle_internal(InternalEvent::LogLoadMore);
    assert!(matches!(svn_cmds(&mut a).as_slice(), [SvnCommand::LogMore(2, 50)]));
    a.handle_async(AsyncSvnNotification::LogAppend { before_rev: 2, result: Err("boom".into()) });
    assert!(msg_popup(&a).1);
    a.popups.clear();
    a.handle_async(AsyncSvnNotification::LogAppend { before_rev: 2, result: Ok(vec![log_entry(1, "first")]) });
    assert_eq!(a.log.entries().len(), 3);
    // oldest is r1 now: no request
    a.handle_internal(InternalEvent::LogLoadMore);
    assert!(svn_cmds(&mut a).is_empty());
}

#[test]
fn out_of_order_log_results_are_dropped() {
    let mut a = app();
    a.handle_async(AsyncSvnNotification::Log(Ok(vec![log_entry(3, "third"), log_entry(2, "second")])));
    a.handle_internal(InternalEvent::SearchLog("fix".into()));
    a.handle_async(AsyncSvnNotification::LogAppend { before_rev: 2, result: Ok(vec![log_entry(1, "first")]) });
    assert_eq!(a.log.entries().len(), 2, "stale append must be dropped");
    a.handle_async(AsyncSvnNotification::LogAppend { before_rev: 2, result: Err("boom".into()) });
    assert!(a.popups.is_empty());
    a.handle_internal(InternalEvent::SearchLog("other".into()));
    a.handle_async(AsyncSvnNotification::LogSearch { pattern: "fix".into(), result: Ok(vec![log_entry(9, "stale")]) });
    assert_eq!(a.log.entries().len(), 2, "superseded search dropped");
    a.handle_async(AsyncSvnNotification::LogSearch { pattern: "other".into(), result: Ok(vec![log_entry(2, "second")]) });
    assert_eq!(a.log.entries().len(), 1);
}

#[test]
fn async_errors_clear_pending_state() {
    let mut a = app();
    a.handle_async(AsyncSvnNotification::Status(Ok(vec![entry('M', "a.txt")])));
    a.handle_internal(InternalEvent::RequestFileDiff);
    a.handle_async(AsyncSvnNotification::Diff { path: "a.txt".into(), result: Err("boom".into()) });
    // the fullscreen request is gone: a later result opens nothing
    a.popups.clear();
    a.handle_async(AsyncSvnNotification::Diff { path: "a.txt".into(), result: Ok("Index: a\n@@ -1 +1 @@\n-a\n+b\n".into()) });
    assert!(a.popups.is_empty());
    a.handle_internal(InternalEvent::RequestBlame("f.rs".into()));
    a.handle_async(AsyncSvnNotification::Blame { path: "f.rs".into(), result: Err("boom".into()) });
    let still_pending = a.popups.iter().any(|p| matches!(p, Popup::Blame(b) if b.pending));
    assert!(!still_pending);
}

#[test]
fn revision_diff_attaches_commit_header() {
    let mut a = app();
    a.handle_async(AsyncSvnNotification::Log(Ok(vec![log_entry(3, "three")])));
    a.handle_internal(InternalEvent::RequestRevisionDiff(3));
    a.handle_async(AsyncSvnNotification::RevisionDiff { revision: 3, result: Ok("Index: x\n===\n@@ -1 +1 @@\n-a\n+b\n".into()) });
    match a.popups.last() {
        Some(Popup::Diff(d)) => assert_eq!(d.view.header(), &["r3 | alice | 2026-01-01", "three"]),
        _ => panic!("expected diff popup"),
    }
    a.popups.clear();
    a.handle_internal(InternalEvent::RequestRevisionDiff(99));
    a.handle_async(AsyncSvnNotification::RevisionDiff { revision: 99, result: Ok("Index: x\n===\n@@ -1 +1 @@\n-a\n+b\n".into()) });
    match a.popups.last() {
        Some(Popup::Diff(d)) => assert!(d.view.header().is_empty()),
        _ => panic!("expected diff popup"),
    }
}

#[test]
fn range_diff_attaches_commit_header() {
    let mut a = app();
    a.handle_async(AsyncSvnNotification::Log(Ok(vec![log_entry(3, "three"), log_entry(1, "one")])));
    a.take_effects();
    a.handle_internal(InternalEvent::RequestRangeDiff(vec![3, 1]));
    assert!(matches!(svn_cmds(&mut a).as_slice(), [SvnCommand::RangeDiff(1, 3)]));
    a.handle_async(AsyncSvnNotification::RangeDiff { from: 1, to: 3, result: Ok("Index: x\n===\n@@ -1 +1 @@\n-a\n+b\n".into()) });
    match a.popups.last() {
        Some(Popup::Diff(d)) => {
            assert_eq!(d.view.header()[0], "r1..r3 (2 commits)");
            assert_eq!(d.view.header()[1], "three");
        },
        _ => panic!("expected diff popup"),
    }
}

#[test]
fn blame_for_file_without_status_entry() {
    let mut a = app();
    a.handle_internal(InternalEvent::RequestBlame("Cargo.toml".into()));
    assert!(matches!(a.popups.last(), Some(Popup::Blame(_))));
    assert!(matches!(svn_cmds(&mut a).as_slice(), [SvnCommand::Blame(p)] if p == "Cargo.toml"));
    a.popups.clear();
    a.handle_async(AsyncSvnNotification::Status(Ok(vec![entry('?', "scratch.txt")])));
    a.take_effects();
    a.handle_internal(InternalEvent::RequestBlame("scratch.txt".into()));
    assert!(msg_popup(&a).1);
    assert!(svn_cmds(&mut a).is_empty());
}

#[test]
fn update_commit_add_revert_resolve_async_flows() {
    let mut a = app();
    a.handle_async(AsyncSvnNotification::Update(Ok("At revision 1.\n".into())));
    assert!(matches!(a.popups.last(), Some(Popup::Output(_))));
    assert!(matches!(svn_cmds(&mut a).as_slice(), [SvnCommand::Status]));
    a.status.set_staged(&["a.txt".into()]);
    a.handle_async(AsyncSvnNotification::Commit(Ok("Committed revision 9.\n".into())));
    assert_eq!(a.status.tree.staged_count(), 0);
    assert!(matches!(svn_cmds(&mut a).as_slice(), [SvnCommand::Status, SvnCommand::Log(50)]));
    a.status.set_staged(&["a.txt".into()]);
    a.handle_async(AsyncSvnNotification::Commit(Err("E170000: stale".into())));
    assert_eq!(a.status.tree.staged_count(), 1);
    assert!(msg_popup(&a).1);
    a.handle_async(AsyncSvnNotification::Add(Ok(vec!["b.txt".into()])));
    assert_eq!(msg_popup(&a).0, "Added to version control");
    a.handle_async(AsyncSvnNotification::Revert(Ok(vec!["a.txt".into()])));
    assert_eq!(a.status.tree.staged_count(), 0);
    a.handle_async(AsyncSvnNotification::Resolve(Ok("c.txt".into())));
    assert_eq!(msg_popup(&a).0, "Conflict resolved: c.txt");
}

#[test]
fn handle_input_routing_and_tabs() {
    let mut a = app();
    a.step_input(&key(KeyCode::Char('2'))).unwrap();
    assert_eq!(a.active_tab, Tab::Log);
    a.step_input(&key(KeyCode::Char('3'))).unwrap();
    assert_eq!(a.active_tab, Tab::Patches);
    assert!(a.take_effects().iter().any(|e| matches!(e, Effect::ListPatches)));
    a.step_input(&key(KeyCode::Char('?'))).unwrap();
    assert!(matches!(a.popups.last(), Some(Popup::Help(_))));
    a.step_input(&key(KeyCode::Esc)).unwrap();
    assert!(a.popups.is_empty());
    a.step_input(&key(KeyCode::Char('i'))).unwrap();
    assert!(matches!(svn_cmds(&mut a).as_slice(), [SvnCommand::RepoInfo]));
    a.step_input(&key(KeyCode::Char('q'))).unwrap();
    assert!(a.quitting);
}

#[test]
fn queue_events_update_and_refresh() {
    let mut a = app();
    a.handle_internal(InternalEvent::Update(NeedsUpdate::all()));
    assert!(matches!(svn_cmds(&mut a).as_slice(), [SvnCommand::Status, SvnCommand::Log(50)]));
    a.handle_internal(InternalEvent::RefreshStatus);
    assert!(matches!(svn_cmds(&mut a).as_slice(), [SvnCommand::Status]));
    a.handle_internal(InternalEvent::AddFiles(vec![]));
    assert!(svn_cmds(&mut a).is_empty());
}

#[test]
fn patch_save_messages() {
    let mut a = app();
    a.save_patch("   \n".into());
    assert_eq!(msg_popup(&a).0, "The working copy has no changes: nothing to save");
    a.popups.clear();
    a.save_patch("Index: a\n".into());
    assert!(matches!(a.take_effects().as_slice(), [Effect::SavePatch(_)]));
    a.patch_saved(Ok("/tmp/patches/patch-1.patch".into()));
    assert_eq!(msg_popup(&a).0, "Patch saved: patch-1.patch");
    a.patch_stat("/p/big.patch".into(), Ok((9_000_000, "8.6 MiB".into())));
    assert_eq!(msg_popup(&a).0, "big.patch is too large to preview (8.6 MiB)");
}

#[test]
fn status_bar_shows_branch_ops_and_staged() {
    let mut a = app();
    a.handle_async(AsyncSvnNotification::Info(Ok(test_info())));
    a.status.set_staged(&["a.txt".into()]);
    let spans = a.status_bar_spans();
    let text: String = spans.iter().map(|s| s.text.as_str()).collect();
    assert!(text.starts_with("[trunk] "), "{text}");
    assert!(text.contains("2 op"), "{text}");
    assert!(text.contains("staged 1 "), "{text}");
    assert!(text.contains("q quit"), "{text}");
}
