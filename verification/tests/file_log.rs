use svnui::file_log::{message_lines, revision_line, FileLogPopup};
use svnui::keys::{Event, KeyCode, KeyEvent};
use svnui::models::LogEntry;
use svnui::queue::InternalEvent;

fn entry(rev: u64, msg: &str) -> LogEntry {
    LogEntry {
        revision: rev,
        author: "alice".into(),
        date: "2026-01-01".into(),
        line_count: 1,
        changed: vec![('M', "src/main.rs".into())],
        message: msg.into(),
    }
}

fn key(code: KeyCode) -> Event {
    Event::Key(KeyEvent::plain(code))
}

fn comp() -> FileLogPopup {
    let mut p = FileLogPopup::new("src/main.rs");
    p.update(vec![entry(5, "five"), entry(2, "two\nsecond line")]);
    p
}

fn pop(p: &mut FileLogPopup) -> Option<InternalEvent> {
    p.take_events().into_iter().next()
}

#[test]
fn navigation_and_revision_diff() {
    let mut p = comp();
    assert_eq!(p.selection_revision(), Some(5));
    p.event(&key(KeyCode::Char('j'))).unwrap();
    assert_eq!(p.selection_revision(), Some(2));
    p.event(&key(KeyCode::End)).unwrap();
    assert_eq!(p.selection_revision(), Some(2));
    p.event(&key(KeyCode::Home)).unwrap();
    assert_eq!(p.selection_revision(), Some(5));
    p.event(&key(KeyCode::PageDown)).unwrap();
    p.event(&key(KeyCode::PageUp)).unwrap();
    assert_eq!(p.selection_revision(), Some(5));
    // Enter requests the revision diff
    p.event(&key(KeyCode::Enter)).unwrap();
    assert!(matches!(pop(&mut p), Some(InternalEvent::RequestRevisionDiff(5))));
    // 'd' also requests it
    p.event(&key(KeyCode::Char('d'))).unwrap();
    assert!(matches!(pop(&mut p), Some(InternalEvent::RequestRevisionDiff(5))));
    // 'b' requests blame for the file (regardless of selection)
    p.event(&key(KeyCode::Char('b'))).unwrap();
    assert!(matches!(pop(&mut p), Some(InternalEvent::RequestBlame(path)) if path == "src/main.rs"));
    // '?' opens help, 'q' closes
    p.event(&key(KeyCode::Char('?'))).unwrap();
    assert!(matches!(pop(&mut p), Some(InternalEvent::OpenHelp)));
    p.event(&key(KeyCode::Char('q'))).unwrap();
    assert!(matches!(pop(&mut p), Some(InternalEvent::ClosePopup)));
    // unknown keys are not consumed
    assert!(!p.event(&key(KeyCode::Char('z'))).unwrap().consumed);
}

#[test]
fn ctrl_d_u_scroll_the_message_pane() {
    let mut p = comp();
    let ctrl_d = Event::Key(KeyEvent { code: KeyCode::Char('d'), ctrl: true, alt: false, shift: false });
    let ctrl_u = Event::Key(KeyEvent { code: KeyCode::Char('u'), ctrl: true, alt: false, shift: false });
    // selection r5, message "five": 1 line — nothing to scroll
    p.event(&ctrl_d).unwrap();
    assert_eq!(p.detail_scroll(), 0);
    // r2's message has two lines: Ctrl+d scrolls, clamped to len - 1
    p.event(&key(KeyCode::Char('j'))).unwrap();
    assert_eq!(p.selection_revision(), Some(2));
    p.event(&ctrl_d).unwrap();
    assert_eq!(p.detail_scroll(), 1);
    p.event(&ctrl_u).unwrap();
    assert_eq!(p.detail_scroll(), 0);
}

#[test]
fn file_log_draw_states() {
    let mut p = FileLogPopup::new("src/main.rs");
    assert!(p.pending());
    p.update(vec![]);
    assert!(!p.pending());
    assert!(p.entries().is_empty());
    p.update(vec![entry(5, "fix the bug"), entry(2, "")]);
    let row: String = revision_line(&p.entries()[0]).iter().map(|s| s.text.as_str()).collect();
    assert_eq!(row, "r5      alice      fix the bug");
    let msg: Vec<String> = message_lines(&p.entries()[1]).iter().map(|l| l.iter().map(|s| s.text.as_str()).collect()).collect();
    assert_eq!(msg, vec!["(no message)"]);
    let msg2: Vec<String> = message_lines(&entry(1, "a\nb")).iter().map(|l| l.iter().map(|s| s.text.as_str()).collect()).collect();
    assert_eq!(msg2, vec!["a", "b"]);
    assert_eq!(p.path(), "src/main.rs");
}
