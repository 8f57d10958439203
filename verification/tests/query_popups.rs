use svnui::keys::{Event, KeyCode, KeyEvent};
use svnui::query_popups::{LogSearchPopup, StatusFilterPopup};
use svnui::queue::InternalEvent;

fn key(code: KeyCode) -> Event {
    Event::Key(KeyEvent::plain(code))
}

fn ctrl(c: char) -> Event {
    Event::Key(KeyEvent { code: KeyCode::Char(c), ctrl: true, alt: false, shift: false })
}

#[test]
fn typing_live_filters_and_enter_keeps_the_filter() {
    let mut p = StatusFilterPopup::new("");
    for ch in "rs".chars() {
        p.event(&key(KeyCode::Char(ch))).unwrap();
        assert!(matches!(p.take_events().first(), Some(InternalEvent::StatusFilterInput(_))));
    }
    p.event(&key(KeyCode::Backspace)).unwrap();
    assert!(matches!(p.take_events().first(), Some(InternalEvent::StatusFilterInput(s)) if s == "r"));
    // Enter keeps the live-pushed filter and closes (no extra event)
    p.event(&key(KeyCode::Enter)).unwrap();
    let q = p.take_events();
    assert!(matches!(q.first(), Some(InternalEvent::ClosePopup)));
    assert_eq!(q.len(), 1);
}

#[test]
fn esc_restores_the_initial_filter() {
    let mut p = StatusFilterPopup::new("saved");
    for ch in "xy".chars() {
        p.event(&key(KeyCode::Char(ch))).unwrap();
        assert!(matches!(p.take_events().first(), Some(InternalEvent::StatusFilterInput(_))));
    }
    p.event(&key(KeyCode::Esc)).unwrap();
    let q = p.take_events();
    assert!(matches!(q.first(), Some(InternalEvent::StatusFilterInput(s)) if s == "saved"));
    assert!(matches!(q.get(1), Some(InternalEvent::ClosePopup)));
    assert_eq!(q.len(), 2);
}

#[test]
fn status_filter_paste_and_ctrl_guard_and_draw() {
    let mut p = StatusFilterPopup::new("");
    // ctrl combos are not query text
    assert!(!p.event(&ctrl('c')).unwrap().consumed);
    // paste appends and live-filters
    p.event(&Event::Paste("配置文件".into())).unwrap();
    assert!(matches!(p.take_events().first(), Some(InternalEvent::StatusFilterInput(s)) if s == "配置文件"));
    assert_eq!(p.query_text(), "配置文件");
}

#[test]
fn typing_live_filters_and_enter_searches() {
    let mut p = LogSearchPopup::new("");
    for ch in "fix".chars() {
        p.event(&key(KeyCode::Char(ch))).unwrap();
        assert!(matches!(p.take_events().first(), Some(InternalEvent::LogSearchInput(_))));
    }
    p.event(&key(KeyCode::Backspace)).unwrap();
    assert!(matches!(p.take_events().first(), Some(InternalEvent::LogSearchInput(s)) if s == "fi"));
    // Enter: full-history search, then close
    p.event(&key(KeyCode::Enter)).unwrap();
    let q = p.take_events();
    assert!(matches!(q.first(), Some(InternalEvent::SearchLog(s)) if s == "fi"));
    assert!(matches!(q.get(1), Some(InternalEvent::ClosePopup)));
}

#[test]
fn esc_closes_and_empty_enter_just_closes() {
    let mut p = LogSearchPopup::new("prefilled");
    p.event(&key(KeyCode::Esc)).unwrap();
    let q = p.take_events();
    assert!(matches!(q.first(), Some(InternalEvent::ClosePopup)));
    assert_eq!(q.len(), 1);

    let mut p2 = LogSearchPopup::new("");
    p2.event(&key(KeyCode::Enter)).unwrap();
    let q2 = p2.take_events();
    assert!(matches!(q2.first(), Some(InternalEvent::ClosePopup)));
    assert_eq!(q2.len(), 1);
}

#[test]
fn log_search_paste_and_ctrl_guard_and_draw() {
    let mut p = LogSearchPopup::new("");
    // ctrl combos are not query text
    p.event(&ctrl('c')).unwrap();
    // paste appends and live-filters
    p.event(&Event::Paste("中文提交".into())).unwrap();
    assert!(matches!(p.take_events().first(), Some(InternalEvent::LogSearchInput(s)) if s == "中文提交"));
}

#[test]
fn backspace_on_empty_query_keeps_it_empty() {
    let mut p = LogSearchPopup::new("");
    assert!(p.event(&key(KeyCode::Backspace)).unwrap().consumed);
    assert!(matches!(p.take_events().first(), Some(InternalEvent::LogSearchInput(s)) if s.is_empty()));
    assert!(!p.event(&key(KeyCode::Up)).unwrap().consumed);
    assert!(!p.event(&Event::Mouse).unwrap().consumed);
}
