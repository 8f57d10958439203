use svnui::keys::{Event, KeyCode, KeyEvent};
use svnui::popups::{ConfirmPopup, DiffPopup, HelpPopup, MsgPopup, OutputPopup};
use svnui::queue::{ConfirmAction, InternalEvent};
use svnui::popups::Popup;
use svnui::ui::Area;

fn key(code: KeyCode) -> Event {
    Event::Key(KeyEvent::plain(code))
}

#[test]
fn yes_confirms_and_closes() {
    let mut p = ConfirmPopup::new("Do it?".to_string(), ConfirmAction::Update);
    let state = p.event(&key(KeyCode::Char('y'))).unwrap();
    assert!(state.consumed);
    let mut q = p.take_events().into_iter();
    assert!(matches!(q.next(), Some(InternalEvent::Confirmed(ConfirmAction::Update))));
    assert!(matches!(q.next(), Some(InternalEvent::ClosePopup)));
}

#[test]
fn no_closes_without_confirmation() {
    let mut p = ConfirmPopup::new("Do it?".to_string(), ConfirmAction::Update);
    p.event(&key(KeyCode::Char('n'))).unwrap();
    let mut q = p.take_events().into_iter();
    assert!(matches!(q.next(), Some(InternalEvent::ClosePopup)));
    assert!(q.next().is_none());
}

#[test]
fn other_keys_ignored() {
    let mut p = ConfirmPopup::new("Do it?".to_string(), ConfirmAction::Update);
    let state = p.event(&key(KeyCode::Char('x'))).unwrap();
    assert!(!state.consumed);
}

#[test]
fn confirm_queues_the_action_once() {
    let mut p = ConfirmPopup::new("Revert?".to_string(), ConfirmAction::Revert(vec!["a.txt".to_string()]));
    assert_eq!(p.message(), "Revert?");
    p.event(&key(KeyCode::Char('Y'))).unwrap();
    p.event(&key(KeyCode::Char('y'))).unwrap();
    let q = p.take_events();
    assert_eq!(q.len(), 3);
    assert!(matches!(&q[0], InternalEvent::Confirmed(ConfirmAction::Revert(v)) if v == &vec!["a.txt".to_string()]));
    assert!(matches!(q[1], InternalEvent::ClosePopup));
    assert!(matches!(q[2], InternalEvent::ClosePopup));
    // Esc closes too
    let mut p2 = ConfirmPopup::new("x".to_string(), ConfirmAction::Update);
    assert!(p2.event(&key(KeyCode::Esc)).unwrap().consumed);
    assert!(!p2.event(&Event::Paste("y".to_string())).unwrap().consumed);
}

#[test]
fn any_key_closes() {
    let mut p = MsgPopup::new("boom".to_string(), true);
    p.event(&key(KeyCode::Char('z'))).unwrap();
    assert!(matches!(p.take_events().first(), Some(InternalEvent::ClosePopup)));
    // another key event closes as well
    let mut p2 = MsgPopup::new("boom".to_string(), false);
    p2.event(&key(KeyCode::Enter)).unwrap();
    assert!(matches!(p2.take_events().first(), Some(InternalEvent::ClosePopup)));
    // a mouse event too, a paste does not
    let mut p3 = MsgPopup::new("boom".to_string(), false);
    assert!(p3.event(&Event::Mouse).unwrap().consumed);
    assert!(!p3.event(&Event::Paste("x".to_string())).unwrap().consumed);
}

#[test]
fn scroll_and_close() {
    let mut p = OutputPopup::new("svn update".to_string(), "line1\nline2\nline3\n");
    assert_eq!(p.lines.len(), 3);
    p.event(&key(KeyCode::Char('j'))).unwrap();
    assert_eq!(p.scroll, 1);
    p.event(&key(KeyCode::End)).unwrap();
    assert_eq!(p.scroll, 3);
    p.event(&key(KeyCode::PageUp)).unwrap();
    p.event(&key(KeyCode::PageDown)).unwrap();
    p.event(&key(KeyCode::Char('g'))).unwrap();
    assert_eq!(p.scroll, 0);
    // enter closes
    p.event(&key(KeyCode::Enter)).unwrap();
    assert!(matches!(p.take_events().first(), Some(InternalEvent::ClosePopup)));
}

#[test]
fn output_lines_are_the_content_lines() {
    let p = OutputPopup::new("t".to_string(), "a\r\nb\n\nc");
    let texts: Vec<String> = p.lines.iter().map(|l| l.iter().map(|s| s.text.as_str()).collect()).collect();
    assert_eq!(texts, vec!["a", "b", "", "c"]);
    assert!(OutputPopup::new("t".to_string(), "").lines.is_empty());
}

#[test]
fn draw_and_close() {
    let mut h = HelpPopup::new();
    // scroll down
    h.event(&key(KeyCode::Char('j'))).unwrap();
    assert_eq!(h.scroll, 1);
    // q closes
    h.event(&key(KeyCode::Char('q'))).unwrap();
    assert!(matches!(h.take_events().first(), Some(InternalEvent::ClosePopup)));
    // '?' also closes
    h.event(&key(KeyCode::Char('?'))).unwrap();
    assert!(matches!(h.take_events().first(), Some(InternalEvent::ClosePopup)));
}

/// A diff with the needle "needle" on parsed lines 8 and 10, far enough
/// down that a match forces scrolling.
const SEARCH_DIFF: &str = "\
Index: f
===================================================================
--- f\t(revision 1)
+++ f\t(working copy)
@@ -1,5 +1,6 @@
 line one
 line two
 line three
+needle one
 line four
+needle two
 line five
";

fn popup(content: &str) -> DiffPopup {
    DiffPopup::new("a".to_string(), content)
}

#[test]
fn scroll_close_and_any_key() {
    let content = "Index: a\n===\n@@ -1 +1 @@\n-a\n+b\n";
    let mut p = popup(content);
    assert_eq!(p.view.parsed.lines.len(), 5);
    p.event(&key(KeyCode::Char('j'))).unwrap();
    assert_eq!(p.view.tv.scroll, 1);
    // Esc closes
    p.event(&key(KeyCode::Esc)).unwrap();
    assert!(matches!(p.take_events().first(), Some(InternalEvent::ClosePopup)));
    // q closes too
    let mut p2 = popup(content);
    p2.event(&key(KeyCode::Char('q'))).unwrap();
    assert!(matches!(p2.take_events().first(), Some(InternalEvent::ClosePopup)));
    // any other key is ignored now (no longer closes the popup)
    let mut p3 = popup(content);
    p3.event(&key(KeyCode::Char('x'))).unwrap();
    assert!(p3.take_events().is_empty());
}

#[test]
fn incremental_search_highlights_and_scrolls() {
    let mut p = popup(SEARCH_DIFF);
    // '/' enters input mode with a fresh pattern
    p.event(&key(KeyCode::Char('/'))).unwrap();
    assert!(p.view.tv.search.is_input_mode());
    // typing updates the pattern live; 'q' is pattern text here
    for c in "need".chars() {
        p.event(&key(KeyCode::Char(c))).unwrap();
    }
    assert_eq!(p.view.tv.search.pattern(), "need");
    assert_eq!(p.view.tv.search.match_count(), 2);
    // scrolled to the first match (line index 8 in parsed.lines)
    assert_eq!(p.view.tv.scroll, 8);
    assert_eq!(p.view.tv.search.status_text(), "/need  [1/2]");
    assert!(p.take_events().is_empty());
}

#[test]
fn enter_keeps_highlights_n_and_big_n_cycle_esc_clears_then_closes() {
    let mut p = popup(SEARCH_DIFF);
    p.event(&key(KeyCode::Char('/'))).unwrap();
    for c in "needle".chars() {
        p.event(&key(KeyCode::Char(c))).unwrap();
    }
    // Enter confirms: input mode off, highlights stay
    p.event(&key(KeyCode::Enter)).unwrap();
    assert!(!p.view.tv.search.is_input_mode());
    assert!(p.view.tv.search.is_active());
    assert_eq!(p.view.tv.scroll, 8);
    // n jumps to the next match and updates the counter
    p.event(&key(KeyCode::Char('n'))).unwrap();
    assert_eq!(p.view.tv.scroll, 10);
    assert_eq!(p.view.tv.search.status_text(), "/needle  [2/2]");
    // n wraps to the first match, N back again
    p.event(&key(KeyCode::Char('n'))).unwrap();
    assert_eq!(p.view.tv.search.status_text(), "/needle  [1/2]");
    p.event(&key(KeyCode::Char('N'))).unwrap();
    assert_eq!(p.view.tv.search.status_text(), "/needle  [2/2]");
    // scrolling still works with highlights active
    p.event(&key(KeyCode::Char('j'))).unwrap();
    // first Esc clears the highlights, popup stays open
    p.event(&key(KeyCode::Esc)).unwrap();
    assert!(!p.view.tv.search.is_active());
    assert!(p.take_events().is_empty());
    // second Esc closes
    p.event(&key(KeyCode::Esc)).unwrap();
    assert!(matches!(p.take_events().first(), Some(InternalEvent::ClosePopup)));
}

#[test]
fn esc_in_input_mode_cancels_search_only() {
    let mut p = popup(SEARCH_DIFF);
    p.event(&key(KeyCode::Char('/'))).unwrap();
    for c in "needle".chars() {
        p.event(&key(KeyCode::Char(c))).unwrap();
    }
    p.event(&key(KeyCode::Esc)).unwrap();
    // search cancelled, popup still open
    assert!(!p.view.tv.search.is_input_mode());
    assert!(!p.view.tv.search.is_active());
    assert!(p.take_events().is_empty());
    // paste works in input mode
    p.event(&key(KeyCode::Char('/'))).unwrap();
    p.event(&Event::Paste("zzz".to_string())).unwrap();
    assert_eq!(p.view.tv.search.pattern(), "zzz");
    assert_eq!(p.view.tv.search.status_text(), "/zzz  [no match]");
}

#[test]
fn rects_are_centered_and_valid() {
    let area = Area::new(0, 0, 120, 40);
    let popups = vec![
        Popup::confirm("m".into(), ConfirmAction::Update),
        Popup::msg("m".into(), false),
        Popup::help(),
        Popup::output("t".into(), "c"),
        Popup::Diff(DiffPopup::new("t".into(), "c")),
        Popup::blame("p"),
        Popup::file_log("p"),
        Popup::file_finder(),
        Popup::log_search(""),
        Popup::status_filter(""),
    ];
    for p in &popups {
        let r = p.rect(area);
        assert!(r.width > 0 && r.height > 0, "{r:?}");
        assert!(r.x + r.width <= 120);
        assert!(r.y + r.height <= 40);
        // centered: the margins on both sides differ by at most one cell
        let (left, right) = (r.x, 120 - r.x - r.width);
        let (top, bottom) = (r.y, 40 - r.y - r.height);
        assert!(left.abs_diff(right) <= 1, "{r:?}");
        assert!(top.abs_diff(bottom) <= 1, "{r:?}");
    }
}
