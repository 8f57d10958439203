use svnui::keys::{Event, KeyCode, KeyEvent};
use svnui::log::{detail_lines, log_list_line, LogComponent};
use svnui::models::LogEntry;
use svnui::queue::{ConfirmAction, InternalEvent, Tab};

fn entry(rev: u64, author: &str, msg: &str) -> LogEntry {
    LogEntry {
        revision: rev,
        author: author.to_string(),
        date: "2026-01-01".to_string(),
        line_count: 1,
        changed: vec![('M', "src/main.rs".to_string())],
        message: msg.to_string(),
    }
}

fn key(code: KeyCode) -> Event {
    Event::Key(KeyEvent::plain(code))
}

/// The requests the list queued, oldest first, popped one at a time.
struct Requests(Vec<InternalEvent>);

impl Requests {
    fn pop(&mut self, c: &mut LogComponent) -> Option<InternalEvent> {
        self.0.extend(c.take_events());
        if self.0.is_empty() {
            None
        } else {
            Some(self.0.remove(0))
        }
    }
}

fn comp() -> (LogComponent, Requests) {
    let mut c = LogComponent::new();
    c.update(vec![entry(3, "alice", "third"), entry(2, "bob", "second"), entry(1, "alice", "first")]);
    (c, Requests(Vec::new()))
}

fn is_log_update(ev: &Option<InternalEvent>) -> bool {
    matches!(ev, Some(InternalEvent::Update(n)) if n.0 == 0b0100)
}

#[test]
fn selection_and_movement() {
    let (mut c, _q) = comp();
    assert_eq!(c.selection_revision(), Some(3));
    c.move_selection(1);
    assert_eq!(c.selection_revision(), Some(2));
    c.event(&key(KeyCode::Char('j'))).unwrap();
    assert_eq!(c.selection_revision(), Some(1));
    c.event(&key(KeyCode::Char('j'))).unwrap(); // clamp
    assert_eq!(c.selection_revision(), Some(1));
    c.event(&key(KeyCode::Char('k'))).unwrap();
    assert_eq!(c.selection_revision(), Some(2));
    c.event(&key(KeyCode::End)).unwrap();
    assert_eq!(c.selection_revision(), Some(1));
    c.event(&key(KeyCode::Home)).unwrap();
    assert_eq!(c.selection_revision(), Some(3));
    // page keys
    c.event(&key(KeyCode::PageDown)).unwrap();
    assert_eq!(c.selection_revision(), Some(1));
    c.event(&key(KeyCode::PageUp)).unwrap();
    assert_eq!(c.selection_revision(), Some(3));
}

#[test]
fn open_revision_diff_and_update_to() {
    let (mut c, mut q) = comp();
    c.event(&key(KeyCode::Enter)).unwrap();
    assert!(matches!(q.pop(&mut c), Some(InternalEvent::RequestRevisionDiff(3))));
    c.event(&key(KeyCode::Char('d'))).unwrap();
    assert!(matches!(q.pop(&mut c), Some(InternalEvent::RequestRevisionDiff(3))));
    c.event(&key(KeyCode::Char('o'))).unwrap();
    assert!(matches!(q.pop(&mut c), Some(InternalEvent::Confirm(ConfirmAction::UpdateToRevision(3)))));
}

#[test]
fn mark_and_request_combined_diff() {
    let (mut c, mut q) = comp();
    // mark r3 and r1 with space
    c.event(&key(KeyCode::Char(' '))).unwrap();
    assert!(c.marks().contains(&3));
    c.event(&key(KeyCode::End)).unwrap();
    c.event(&key(KeyCode::Char(' '))).unwrap();
    assert!(c.marks().contains(&1));
    // Enter with two marks → combined range diff
    c.event(&key(KeyCode::Enter)).unwrap();
    assert!(matches!(q.pop(&mut c), Some(InternalEvent::RequestRangeDiff(revs)) if revs == vec![1, 3]));
    // unmark again → single-revision diff
    c.event(&key(KeyCode::Char(' '))).unwrap(); // unmark r1
    c.event(&key(KeyCode::Home)).unwrap();
    c.event(&key(KeyCode::Char(' '))).unwrap(); // unmark r3
    assert!(c.marks().is_empty());
    c.event(&key(KeyCode::Enter)).unwrap();
    assert!(matches!(q.pop(&mut c), Some(InternalEvent::RequestRevisionDiff(3))));
}

#[test]
fn search_filters_by_keyword() {
    let (mut c, mut q) = comp();
    // '/' opens the search popup (the app handles the popup itself)
    c.event(&key(KeyCode::Char('/'))).unwrap();
    assert!(matches!(q.pop(&mut c), Some(InternalEvent::OpenLogSearch)));

    // live filter set from the popup while typing
    c.set_filter("second".into());
    assert_eq!(c.filter(), "second");
    assert_eq!(c.selection_revision(), Some(2));
    // Esc clears a plain filter without reloading
    c.event(&key(KeyCode::Esc)).unwrap();
    assert_eq!(c.selection_revision(), Some(3));
    assert!(q.pop(&mut c).is_none());

    // author / revision keywords work too
    c.set_filter("b".into());
    assert_eq!(c.selection_revision(), Some(2)); // bob
    c.set_filter("3".into());
    assert_eq!(c.selection_revision(), Some(3)); // r3

    // with full-history search results shown, Esc also reloads the log
    c.set_search_active("3".into());
    c.event(&key(KeyCode::Esc)).unwrap();
    assert_eq!(c.filter(), "");
    assert!(c.search_pattern().is_none());
    assert!(is_log_update(&q.pop(&mut c)));
}

fn paged_entries() -> Vec<LogEntry> {
    // r60 down to r2: oldest is 2, so more pages exist
    (2..=60).rev().map(|r| entry(r, "a", &format!("commit {r}"))).collect()
}

#[test]
fn scrolling_to_bottom_loads_more() {
    let mut c = LogComponent::new();
    let mut q = Requests(Vec::new());
    c.update(paged_entries());
    assert_eq!(c.entries().len(), 59);

    // scrolling near the bottom requests the next page exactly once
    c.event(&key(KeyCode::End)).unwrap();
    assert!(matches!(q.pop(&mut c), Some(InternalEvent::LogLoadMore)));
    c.event(&key(KeyCode::Char('j'))).unwrap();
    assert!(q.pop(&mut c).is_none(), "duplicate request while in flight");

    // the page arrives and is appended; scrolling continues paging
    let older: Vec<LogEntry> = vec![entry(1, "a", "commit 1")];
    c.append(older);
    assert_eq!(c.entries().len(), 60);
    // oldest is now r1: no more pages
    c.event(&key(KeyCode::End)).unwrap();
    assert!(q.pop(&mut c).is_none());
}

#[test]
fn append_failure_allows_retry() {
    let mut c = LogComponent::new();
    let mut q = Requests(Vec::new());
    c.update(paged_entries());
    c.event(&key(KeyCode::End)).unwrap();
    assert!(matches!(q.pop(&mut c), Some(InternalEvent::LogLoadMore)));
    c.append_failed();
    c.event(&key(KeyCode::End)).unwrap();
    assert!(matches!(q.pop(&mut c), Some(InternalEvent::LogLoadMore)));
}

#[test]
fn search_results_do_not_paginate() {
    // full-history search already returned all matches: scrolling to
    // the bottom must not request more pages
    let mut c = LogComponent::new();
    let mut q = Requests(Vec::new());
    c.update(paged_entries());
    c.set_filter("commit".into());
    c.set_search_active("commit".into());
    c.event(&key(KeyCode::End)).unwrap();
    assert!(q.pop(&mut c).is_none());
}

#[test]
fn refresh_help_and_tab_switches() {
    let (mut c, mut q) = comp();
    c.event(&key(KeyCode::F(5))).unwrap();
    assert!(is_log_update(&q.pop(&mut c)));
    c.event(&key(KeyCode::Char('?'))).unwrap();
    assert!(matches!(q.pop(&mut c), Some(InternalEvent::OpenHelp)));
    c.event(&key(KeyCode::Esc)).unwrap();
    assert!(matches!(q.pop(&mut c), Some(InternalEvent::SwitchTab(Tab::Status))));
    c.event(&key(KeyCode::Char('1'))).unwrap();
    assert!(matches!(q.pop(&mut c), Some(InternalEvent::SwitchTab(Tab::Status))));
    c.event(&key(KeyCode::Char('2'))).unwrap();
    assert!(matches!(q.pop(&mut c), Some(InternalEvent::SwitchTab(Tab::Log))));
    // q is not consumed so the app can quit
    assert!(!c.event(&key(KeyCode::Char('q'))).unwrap().consumed);
}

#[test]
fn move_selection_resets_detail_scroll() {
    let (mut c, _q) = comp();
    c.set_detail_scroll(5);
    c.move_selection(1);
    assert_eq!(c.detail_scroll(), 0);
}

#[test]
fn update_clamps_selection() {
    let (mut c, _q) = comp();
    c.event(&key(KeyCode::End)).unwrap();
    c.update(vec![entry(9, "x", "only")]);
    assert_eq!(c.selection_revision(), Some(9));
}

#[test]
fn filter_ignores_case_and_visible_rows_follow_it() {
    let (mut c, _q) = comp();
    c.set_filter("ALICE".into());
    assert_eq!(c.visible_indices(), vec![0, 2]);
    c.set_search_active("x".into());
    // search results are shown as they came
    assert_eq!(c.visible_indices(), vec![0, 1, 2]);
    c.clear_search();
    c.set_filter("nothing-matches".into());
    assert!(c.visible_indices().is_empty());
    assert_eq!(c.selection_revision(), None);
}

#[test]
fn list_line_and_details_text() {
    let mut e = entry(3, "alice", "third\n\nmore words");
    e.changed.push(('A', "docs/new.md".to_string()));
    let line: String = log_list_line(&e, true).iter().map(|s| s.text.as_str()).collect();
    assert_eq!(line, "● r3 alice  third");
    let unmarked: String = log_list_line(&e, false).iter().map(|s| s.text.as_str()).collect();
    assert_eq!(unmarked, "  r3 alice  third");
    let detail: Vec<String> = detail_lines(&e).iter().map(|l| l.iter().map(|s| s.text.as_str()).collect()).collect();
    assert_eq!(
        detail,
        vec![
            "r3 | alice | 2026-01-01",
            "",
            "Changed paths:",
            " M src/main.rs",
            " A docs/new.md",
            "",
            "Message:",
            "third",
            "",
            "more words",
        ]
    );
    let mut long = entry(4, "bob", &"x".repeat(200));
    long.changed.clear();
    let row: String = log_list_line(&long, false).iter().map(|s| s.text.as_str()).collect();
    assert_eq!(row.chars().count(), "  r4 bob  ".len() + 120);
    assert!(row.ends_with('…'));
    let d: Vec<String> = detail_lines(&long).iter().map(|l| l.iter().map(|s| s.text.as_str()).collect()).collect();
    assert_eq!(d[2], "Message:");
}

#[test]
fn list_title_names_keyword_and_marks() {
    let mut c = LogComponent::new();
    c.update(vec![entry(3, "alice", "third"), entry(2, "bob", "second")]);
    assert_eq!(c.list_title(), "Log (svn log)");
    c.set_filter("thi".into());
    assert_eq!(c.list_title(), "Log (svn log)  filter: \"thi\"");
    c.set_filter(String::new());
    c.event(&Event::Key(KeyEvent::plain(KeyCode::Char(' ')))).unwrap();
    assert_eq!(c.list_title(), "Log (svn log)  (1 marked)");
}
