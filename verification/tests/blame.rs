use svnui::blame::BlamePopup;
use svnui::keys::{Event, KeyCode, KeyEvent};
use svnui::models::BlameLine;
use svnui::queue::InternalEvent;

fn line(rev: Option<u64>, author: &str, content: &str) -> BlameLine {
    BlameLine { revision: rev, author: author.to_string(), content: content.to_string() }
}

fn key(code: KeyCode) -> Event {
    Event::Key(KeyEvent::plain(code))
}

fn pop(b: &mut BlamePopup) -> Option<InternalEvent> {
    let mut v = b.take_events();
    if v.is_empty() {
        None
    } else {
        Some(v.remove(0))
    }
}

#[test]
fn update_and_scroll() {
    let mut b = BlamePopup::new("src/main.rs");
    assert!(b.pending);
    b.update(vec![line(Some(1), "a", "x"), line(None, "-", "y"), line(Some(3), "b", "z")]);
    assert!(!b.pending);
    b.event(&key(KeyCode::Char('j'))).unwrap();
    assert_eq!(b.selected, 1);
    b.event(&key(KeyCode::Char('G'))).unwrap();
    assert_eq!(b.selected, 2);
    b.event(&key(KeyCode::Char('j'))).unwrap();
    assert_eq!(b.selected, 2); // bounded
    b.event(&key(KeyCode::Char('g'))).unwrap();
    assert_eq!(b.selected, 0);
    b.event(&key(KeyCode::PageDown)).unwrap();
    assert_eq!(b.selected, 2);
    b.event(&key(KeyCode::PageUp)).unwrap();
    assert_eq!(b.selected, 0);
    // q closes
    b.event(&key(KeyCode::Char('q'))).unwrap();
    assert!(matches!(pop(&mut b), Some(InternalEvent::ClosePopup)));
}

fn blame_with_lines() -> BlamePopup {
    let mut b = BlamePopup::new("src/main.rs");
    b.update(
        (1..=20)
            .map(|i| {
                let content = if i == 8 || i == 15 { format!("needle line {i}") } else { format!("plain line {i}") };
                line(Some(i), "alice", &content)
            })
            .collect(),
    );
    b
}

#[test]
fn enter_opens_revision_diff_of_cursor_line() {
    let mut b = blame_with_lines();
    // cursor starts on line 0, whose revision is 1
    b.event(&key(KeyCode::Enter)).unwrap();
    assert!(matches!(pop(&mut b), Some(InternalEvent::RequestRevisionDiff(1))));
    // move the cursor down, Enter follows it
    b.event(&key(KeyCode::Char('j'))).unwrap();
    b.event(&key(KeyCode::Enter)).unwrap();
    assert!(matches!(pop(&mut b), Some(InternalEvent::RequestRevisionDiff(2))));
    // uncommitted lines have no revision to jump to
    let mut b2 = BlamePopup::new("f");
    b2.update(vec![line(None, "-", "uncommitted")]);
    b2.event(&key(KeyCode::Enter)).unwrap();
    assert!(matches!(pop(&mut b2), Some(InternalEvent::ShowInfoMsg(_))));
}

#[test]
fn horizontal_scroll_clamps_at_draw() {
    let mut b = blame_with_lines();
    // h saturates at 0, l moves right by 8 columns
    b.event(&key(KeyCode::Char('h'))).unwrap();
    assert_eq!(b.tv.hscroll, 0);
    b.event(&key(KeyCode::Char('l'))).unwrap();
    assert_eq!(b.tv.hscroll, 8);
    // new blame data resets the offset
    b.update(vec![line(Some(1), "a", "x")]);
    assert_eq!(b.tv.hscroll, 0);
    assert_eq!(b.tv.max_width, 12);
}

#[test]
fn author_column_padded_to_widest() {
    let mut b = BlamePopup::new("f");
    b.update(vec![line(Some(1), "al", "short"), line(Some(2), "Gabi Melman", "x")]);
    assert_eq!(b.author_w, 11);
    assert_eq!(b.tv.max_width, 10 + 11 + 5);
}

#[test]
fn search_highlights_scrolls_and_cycles() {
    let mut b = blame_with_lines();
    b.event(&key(KeyCode::Char('/'))).unwrap();
    assert!(b.tv.search.is_input_mode());
    for c in "needle".chars() {
        b.event(&key(KeyCode::Char(c))).unwrap();
    }
    // live: both matches found, cursor on the first (line index 7)
    assert_eq!(b.tv.search.match_count(), 2);
    assert_eq!(b.selected, 7);
    assert_eq!(b.tv.search.status_text(), "/needle  [1/2]");
    // Enter keeps highlights; n/N cycle with wrapping
    b.event(&key(KeyCode::Enter)).unwrap();
    assert!(!b.tv.search.is_input_mode());
    assert!(b.tv.search.is_active());
    b.event(&key(KeyCode::Char('n'))).unwrap();
    assert_eq!(b.selected, 14);
    assert_eq!(b.tv.search.status_text(), "/needle  [2/2]");
    b.event(&key(KeyCode::Char('n'))).unwrap();
    assert_eq!(b.selected, 7); // wrapped
    b.event(&key(KeyCode::Char('N'))).unwrap();
    assert_eq!(b.selected, 14);
    // scroll keys still work with highlights active
    b.event(&key(KeyCode::Char('g'))).unwrap();
    assert_eq!(b.selected, 0);
    // first Esc clears highlights, second closes
    b.event(&key(KeyCode::Esc)).unwrap();
    assert!(!b.tv.search.is_active());
    assert!(pop(&mut b).is_none());
    b.event(&key(KeyCode::Esc)).unwrap();
    assert!(matches!(pop(&mut b), Some(InternalEvent::ClosePopup)));
}

#[test]
fn esc_in_input_cancels_and_q_types_into_pattern() {
    let mut b = blame_with_lines();
    b.event(&key(KeyCode::Char('/'))).unwrap();
    // 'q' is pattern text while typing, not "close"
    b.event(&key(KeyCode::Char('q'))).unwrap();
    assert_eq!(b.tv.search.pattern(), "q");
    assert!(pop(&mut b).is_none());
    // backspace edits the pattern
    b.event(&key(KeyCode::Backspace)).unwrap();
    assert_eq!(b.tv.search.pattern(), "");
    b.event(&key(KeyCode::Esc)).unwrap();
    assert!(!b.tv.search.is_active());
    assert!(pop(&mut b).is_none());
    // q outside input mode still closes
    b.event(&key(KeyCode::Char('q'))).unwrap();
    assert!(matches!(pop(&mut b), Some(InternalEvent::ClosePopup)));
}

#[test]
fn search_input_stays_closed_until_data_arrives() {
    let mut b = BlamePopup::new("f");
    // pending: '/' must not enter input mode — a half-typed pattern
    // would be discarded when update() lands and resets the view
    assert!(b.pending);
    b.event(&key(KeyCode::Char('/'))).unwrap();
    assert!(!b.tv.search.is_input_mode());
    // empty blame data: same, there is nothing to search
    b.update(vec![]);
    b.event(&key(KeyCode::Char('/'))).unwrap();
    assert!(!b.tv.search.is_input_mode());
    // once lines arrive, search works normally
    b.update(vec![line(Some(1), "a", "needle here"), line(Some(2), "a", "plain")]);
    b.event(&key(KeyCode::Char('/'))).unwrap();
    assert!(b.tv.search.is_input_mode());
    for c in "needle".chars() {
        b.event(&key(KeyCode::Char(c))).unwrap();
    }
    assert_eq!(b.tv.search.match_count(), 1);
    assert_eq!(b.selected, 0);
    // Enter confirms, n/N keep cycling (stored matches, no re-feed)
    b.event(&key(KeyCode::Enter)).unwrap();
    b.event(&key(KeyCode::Char('n'))).unwrap();
    assert_eq!(b.selected, 0);
}

#[test]
fn blame_search_highlights_stay_aligned_with_hscroll() {
    let mut b = BlamePopup::new("f");
    b.update(vec![line(Some(1), "al", "xx needle yy plus some more text"), line(Some(2), "al", "plain")]);
    b.event(&key(KeyCode::Char('/'))).unwrap();
    for c in "needle".chars() {
        b.event(&key(KeyCode::Char(c))).unwrap();
    }
    b.event(&key(KeyCode::Enter)).unwrap();
    assert_eq!(b.tv.search.match_count(), 1);
    b.event(&key(KeyCode::Char('l'))).unwrap();
    assert_eq!(b.tv.hscroll, 8);
    assert_eq!(b.tv.search.status_text(), "/needle  [1/1]");
}

#[test]
fn help_key_and_other_events() {
    let mut b = blame_with_lines();
    b.event(&key(KeyCode::Char('?'))).unwrap();
    assert!(matches!(pop(&mut b), Some(InternalEvent::OpenHelp)));
    assert!(!b.event(&key(KeyCode::Char('z'))).unwrap().consumed);
    assert!(!b.event(&Event::Mouse).unwrap().consumed);
}
