use svnui::keys::{Event, KeyCode, KeyEvent};
use svnui::text_view::{SearchOutcome, TextView};
use svnui::ui::Area;

const LINES: [&str; 4] = ["foo bar", "nothing here", "bar foo bar", "last foo"];

fn key(code: KeyCode) -> Event {
    Event::Key(KeyEvent::plain(code))
}

#[test]
fn scroll_event_steps_and_clamps() {
    let mut tv = TextView::new();
    let len = 100;
    // j/↓ step 1, k/↑ step back
    assert!(tv.scroll_event(&key(KeyCode::Char('j')), len).consumed);
    assert_eq!(tv.scroll, 1);
    assert!(tv.scroll_event(&key(KeyCode::Down), len).consumed);
    assert_eq!(tv.scroll, 2);
    assert!(tv.scroll_event(&key(KeyCode::Char('k')), len).consumed);
    assert!(tv.scroll_event(&key(KeyCode::Up), len).consumed);
    assert_eq!(tv.scroll, 0);
    // k saturates at 0
    tv.scroll_event(&key(KeyCode::Char('k')), len);
    assert_eq!(tv.scroll, 0);
    // J/K/PgDn/PgUp step 20
    tv.scroll_event(&key(KeyCode::Char('J')), len);
    assert_eq!(tv.scroll, 20);
    tv.scroll_event(&key(KeyCode::PageDown), len);
    assert_eq!(tv.scroll, 40);
    tv.scroll_event(&key(KeyCode::Char('K')), len);
    assert_eq!(tv.scroll, 20);
    tv.scroll_event(&key(KeyCode::PageUp), len);
    assert_eq!(tv.scroll, 0);
    // g/Home top, G/End bottom (bounded by len)
    tv.scroll_event(&key(KeyCode::Char('G')), len);
    assert_eq!(tv.scroll, len);
    tv.scroll_event(&key(KeyCode::Char('g')), len);
    assert_eq!(tv.scroll, 0);
    tv.scroll_event(&key(KeyCode::End), len);
    assert_eq!(tv.scroll, len);
    tv.scroll_event(&key(KeyCode::Home), len);
    assert_eq!(tv.scroll, 0);
    // h/l/←/→ scroll horizontally by 8 columns, saturating at 0
    tv.scroll_event(&key(KeyCode::Char('h')), len);
    assert_eq!(tv.hscroll, 0);
    tv.scroll_event(&key(KeyCode::Char('l')), len);
    assert_eq!(tv.hscroll, 8);
    tv.scroll_event(&key(KeyCode::Right), len);
    assert_eq!(tv.hscroll, 16);
    tv.scroll_event(&key(KeyCode::Left), len);
    assert_eq!(tv.hscroll, 8);
    // anything else is not consumed
    assert!(!tv.scroll_event(&key(KeyCode::Char('x')), len).consumed);
    assert!(!tv.scroll_event(&Event::Paste("p".into()), len).consumed);
}

#[test]
fn search_event_outcomes() {
    let mut tv = TextView::new();
    let lines: Vec<&str> = LINES.to_vec();
    // unrelated key: ignored
    assert_eq!(tv.search_event(&key(KeyCode::Char('x')), &lines, 0), SearchOutcome::Ignored);
    // non-key events outside input mode are ignored too
    assert_eq!(tv.search_event(&Event::Paste("foo".into()), &lines, 0), SearchOutcome::Ignored);
    // '/' starts input mode
    assert_eq!(tv.search_event(&key(KeyCode::Char('/')), &lines, 0), SearchOutcome::Consumed);
    assert!(tv.search.is_input_mode());
    // typing a pattern with matches reveals the first one at/after from_line
    assert_eq!(tv.search_event(&key(KeyCode::Char('f')), &lines, 0), SearchOutcome::Reveal(0));
    tv.search_event(&key(KeyCode::Char('o')), &lines, 0);
    assert_eq!(tv.search_event(&key(KeyCode::Char('o')), &lines, 1), SearchOutcome::Reveal(2));
    // a pattern without matches consumes but does not reveal
    tv.search.start_input();
    for c in "zzz".chars() {
        assert_eq!(tv.search_event(&key(KeyCode::Char(c)), &lines, 0), SearchOutcome::Consumed);
    }
    // Enter confirms: consumed, no reveal
    assert_eq!(tv.search_event(&key(KeyCode::Enter), &lines, 0), SearchOutcome::Consumed);
    // back to a pattern with matches: n/N cycle with Reveal
    tv.search.start_input();
    for c in "foo".chars() {
        tv.search_event(&key(KeyCode::Char(c)), &lines, 0);
    }
    tv.search_event(&key(KeyCode::Enter), &lines, 0);
    assert_eq!(tv.search_event(&key(KeyCode::Char('n')), &lines, 0), SearchOutcome::Reveal(2));
    assert_eq!(tv.search_event(&key(KeyCode::Char('n')), &lines, 0), SearchOutcome::Reveal(3));
    assert_eq!(tv.search_event(&key(KeyCode::Char('N')), &lines, 0), SearchOutcome::Reveal(2));
    // Ctrl+n is not search cycling
    let ctrl_n = Event::Key(KeyEvent { code: KeyCode::Char('n'), ctrl: true, alt: false, shift: false });
    assert_eq!(tv.search_event(&ctrl_n, &lines, 0), SearchOutcome::Ignored);
}

#[test]
fn alt_modified_chars_are_not_search_cycling() {
    // macOS Option+n reports Char('n')+ALT; with a confirmed search
    // active it must not jump to the next match
    let mut tv = TextView::new();
    let lines: Vec<&str> = LINES.to_vec();
    tv.search.start_input();
    for c in "foo".chars() {
        tv.search_event(&key(KeyCode::Char(c)), &lines, 0);
    }
    tv.search_event(&key(KeyCode::Enter), &lines, 0);
    assert_eq!(tv.search.match_count(), 3);
    let alt_n = Event::Key(KeyEvent { code: KeyCode::Char('n'), ctrl: false, alt: true, shift: false });
    assert_eq!(tv.search_event(&alt_n, &lines, 0), SearchOutcome::Ignored);
    let alt_big_n = Event::Key(KeyEvent { code: KeyCode::Char('N'), ctrl: false, alt: true, shift: false });
    assert_eq!(tv.search_event(&alt_big_n, &lines, 0), SearchOutcome::Ignored);
    // plain n still cycles
    assert_eq!(tv.search_event(&key(KeyCode::Char('n')), &lines, 0), SearchOutcome::Reveal(2));
}

#[test]
fn layout_splits_footer_and_clamps() {
    let mut tv = TextView::new();
    let inner = Area::new(1, 1, 20, 10);
    // no search: the area is returned whole; scroll is clamped
    tv.scroll = 95;
    let (content, footer, scroll) = tv.layout(inner, 100);
    assert_eq!(content, inner);
    assert_eq!(footer, None);
    assert_eq!(scroll, 90);
    assert_eq!(tv.scroll, 90);
    // hscroll clamped against the widest line and written back
    tv.max_width = 30;
    tv.hscroll = 99;
    let (_, _, _) = tv.layout(inner, 100);
    assert_eq!(tv.hscroll, 10);
    // active search carves off the footer row
    tv.search.start_input();
    let (content, footer, _) = tv.layout(inner, 100);
    assert_eq!(content, Area::new(1, 1, 20, 9));
    assert_eq!(footer, Some(Area::new(1, 10, 20, 1)));
}

#[test]
fn layout_with_cursor_follows_the_cursor() {
    let mut tv = TextView::new();
    let inner = Area::new(0, 0, 20, 10);
    // cursor below the window pulls the scroll down
    tv.scroll = 0;
    let (_, _, scroll) = tv.layout_with_cursor(inner, 100, 15);
    assert_eq!(scroll, 6);
    // cursor above the window pulls the scroll up
    let (_, _, scroll) = tv.layout_with_cursor(inner, 100, 2);
    assert_eq!(scroll, 2);
    // cursor inside the window: scroll unchanged
    tv.scroll = 5;
    let (_, _, scroll) = tv.layout_with_cursor(inner, 100, 7);
    assert_eq!(scroll, 5);
    // clamped against the content end
    let (_, _, scroll) = tv.layout_with_cursor(inner, 100, 99);
    assert_eq!(scroll, 90);
    assert_eq!(tv.scroll, 90);
}

#[test]
fn reset_clears_everything() {
    let mut tv = TextView::new();
    tv.scroll = 5;
    tv.hscroll = 8;
    tv.max_width = 30;
    tv.search.start_input();
    tv.search_event(&key(KeyCode::Char('f')), &LINES, 0);
    tv.reset();
    assert_eq!(tv.scroll, 0);
    assert_eq!(tv.hscroll, 0);
    assert_eq!(tv.max_width, 0);
    assert!(!tv.search.is_active());
}

#[test]
fn status_text_after_typing() {
    let mut tv = TextView::new();
    tv.search.start_input();
    for c in "foo".chars() {
        tv.search_event(&key(KeyCode::Char(c)), &LINES, 0);
    }
    assert_eq!(tv.search.status_text(), "/foo  [1/3]");
}

#[test]
fn scroll_saturates_at_usize_bounds() {
    let mut tv = TextView::new();
    tv.hscroll = usize::MAX - 3;
    tv.scroll_event(&key(KeyCode::Char('l')), 10);
    assert_eq!(tv.hscroll, usize::MAX);
    tv.scroll = usize::MAX - 5;
    tv.scroll_event(&key(KeyCode::PageDown), usize::MAX);
    assert_eq!(tv.scroll, usize::MAX);
}
