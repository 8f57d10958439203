use svnui::keys::{Event, KeyCode, KeyEvent};
use svnui::models::StatusEntry;
use svnui::queue::InternalEvent;
use svnui::status::{PaneFocus, StatusTab};

fn entry(status: char, path: &str) -> StatusEntry {
    StatusEntry {
        status,
        props_status: ' ',
        tree_conflict: ' ',
        path: path.to_string(),
        is_dir: false,
    }
}

fn key(code: KeyCode) -> Event {
    Event::Key(KeyEvent::plain(code))
}

#[test]
fn focus_cycling() {
    let mut t = StatusTab::new();
    assert_eq!(t.focus, PaneFocus::Tree);
    t.cycle_focus(true);
    assert_eq!(t.focus, PaneFocus::Diff);
    t.cycle_focus(true);
    assert_eq!(t.focus, PaneFocus::Commit);
    t.cycle_focus(true);
    assert_eq!(t.focus, PaneFocus::Tree);
    t.cycle_focus(false);
    assert_eq!(t.focus, PaneFocus::Commit);
    t.cycle_focus(false);
    assert_eq!(t.focus, PaneFocus::Diff);
    // component focus flags stay in sync
    t.set_focus(PaneFocus::Tree);
    assert!(t.tree.focused());
    assert!(!t.commit.focused());
    t.set_focus(PaneFocus::Commit);
    assert!(t.commit.focused());
    assert!(!t.tree.focused());
}

#[test]
fn update_status_sets_hints() {
    let mut t = StatusTab::new();
    t.update_status(vec![entry('M', "a.txt"), entry('?', "b.txt")]);
    assert_eq!(t.tree.staged_count(), 0);
    assert!(t.commit.hint().contains("no files staged"));
    // staged hint
    t.tree.set_staged(&["a.txt".to_string()]);
    t.update_commit_hint();
    assert!(t.commit.hint().contains("1 file(s) staged"));
    // clean working copy hint
    t.update_status(vec![]);
    assert_eq!(t.diff.empty_reason.as_deref(), Some("Working copy is clean"));
}

#[test]
fn maybe_request_diff_flow() {
    let mut t = StatusTab::new();
    t.update_status(vec![entry('M', "a.txt"), entry('M', "b.txt")]);
    // first selection (a.txt) requests a diff
    assert_eq!(t.maybe_request_diff().as_deref(), Some("a.txt"));
    // same file → no duplicate request
    assert_eq!(t.maybe_request_diff(), None);
    // new status: selection stays on a.txt (a file) → new request
    t.update_status(vec![entry('M', "src/main.rs"), entry('M', "a.txt")]);
    assert_eq!(t.maybe_request_diff().as_deref(), Some("a.txt"));
    // moving to the src dir → hint, no request
    t.tree.event(&key(KeyCode::Char('k'))).unwrap();
    assert_eq!(t.maybe_request_diff(), None);
    assert_eq!(
        t.diff.empty_reason.as_deref(),
        Some("src is a directory — select a file")
    );
    // status change forces a new request
    t.update_status(vec![entry('M', "a.txt")]);
    assert_eq!(t.maybe_request_diff().as_deref(), Some("a.txt"));
}

#[test]
fn apply_diff_only_for_current_selection() {
    let mut t = StatusTab::new();
    t.update_status(vec![entry('M', "a.txt")]);
    // stale diff for a different path is ignored (hint stays)
    t.apply_diff("b.txt", "Index: b\n");
    assert!(t.diff.empty_reason.is_some());
    t.apply_diff("a.txt", "Index: a.txt\n@@ -1 +1 @@\n-old\n+new\n");
    assert!(t.diff.empty_reason.is_none());
    assert_eq!(t.diff.parsed.lines.len(), 4);
}

#[test]
fn event_routes_to_focused_pane() {
    let mut t = StatusTab::new();
    t.update_status(vec![entry('M', "a.txt")]);
    // tree focused: 'j' consumed
    assert!(t.event(&key(KeyCode::Char('j'))).unwrap().consumed);
    // diff focused: 'j' not consumed by the diff falls through to the tree
    t.set_focus(PaneFocus::Diff);
    let _ = t.event(&key(KeyCode::Char('j'))).unwrap();
    // commit focused: typing consumed by commit
    t.set_focus(PaneFocus::Commit);
    let _ = t.event(&key(KeyCode::Char('x'))).unwrap();
    assert_eq!(t.commit.text(), "x");
    // Esc in commit unfocuses and returns focus to tree
    let _ = t.event(&key(KeyCode::Esc)).unwrap();
    assert!(!t.commit.focused());
    assert_eq!(t.focus, PaneFocus::Tree);
    // the tree asks for the commit input via 'c'
    t.tree.take_events();
    t.event(&key(KeyCode::Char('c'))).unwrap();
    let evs = t.tree.take_events();
    assert!(matches!(evs.first(), Some(InternalEvent::OpenCommit)));
}

#[test]
fn handle_global_key_cycles_focus() {
    let mut t = StatusTab::new();
    assert!(t.handle_global_key(&key(KeyCode::Tab)));
    assert_eq!(t.focus, PaneFocus::Diff);
    let shift_tab = Event::Key(KeyEvent {
        code: KeyCode::BackTab,
        ctrl: false,
        alt: false,
        shift: true,
    });
    assert!(t.handle_global_key(&shift_tab));
    assert_eq!(t.focus, PaneFocus::Tree);
    assert!(!t.handle_global_key(&key(KeyCode::Char('z'))));
}

#[test]
fn staged_helpers() {
    let mut t = StatusTab::new();
    t.set_staged(&["a.txt".to_string()]);
    assert_eq!(t.tree.staged_count(), 1);
    t.unset_staged(&["a.txt".to_string()]);
    assert_eq!(t.tree.staged_count(), 0);
    t.set_staged(&["a.txt".to_string()]);
    t.clear_staged();
    assert_eq!(t.tree.staged_count(), 0);
}
