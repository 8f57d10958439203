use svnui::keys::{Event, KeyCode, KeyEvent};
use svnui::text_search::{EscAction, InputOutcome, Match, TextSearch};

fn key(code: KeyCode) -> Event {
    Event::Key(KeyEvent::plain(code))
}

fn lines() -> Vec<&'static str> {
    vec!["foo bar", "nothing here", "bar foo bar", "last foo"]
}

fn search_with(pattern: &str, from: usize) -> TextSearch {
    let mut s = TextSearch::new();
    s.start_input();
    for c in pattern.chars() {
        s.input_event(&key(KeyCode::Char(c)));
    }
    s.recompute(&lines(), from);
    s
}

#[test]
fn input_events_update_pattern_incrementally() {
    let mut s = TextSearch::new();
    // not in input mode: ignored
    assert_eq!(s.input_event(&key(KeyCode::Char('a'))), InputOutcome::Ignored);
    s.start_input();
    assert!(s.is_input_mode());
    assert!(s.is_active());
    assert_eq!(s.input_event(&key(KeyCode::Char('f'))), InputOutcome::Changed);
    assert_eq!(s.input_event(&Event::Paste("oo".to_string())), InputOutcome::Changed);
    assert_eq!(s.pattern(), "foo");
    assert_eq!(s.input_event(&key(KeyCode::Backspace)), InputOutcome::Changed);
    assert_eq!(s.pattern(), "fo");
    // ctrl/alt-modified chars and cursor keys are ignored
    let ctrl_a = Event::Key(KeyEvent { code: KeyCode::Char('a'), ctrl: true, alt: false, shift: false });
    assert_eq!(s.input_event(&ctrl_a), InputOutcome::Ignored);
    // macOS Option+e produces '´' with the ALT modifier set
    let alt_e = Event::Key(KeyEvent { code: KeyCode::Char('´'), ctrl: false, alt: true, shift: false });
    assert_eq!(s.input_event(&alt_e), InputOutcome::Ignored);
    assert_eq!(s.input_event(&key(KeyCode::Down)), InputOutcome::Ignored);
    assert_eq!(s.pattern(), "fo");
}

#[test]
fn recompute_finds_all_matches_and_picks_nearest() {
    let s = search_with("foo", 0);
    assert_eq!(s.match_count(), 3);
    assert_eq!(s.current_match_line(), Some(0));
    // from_line picks the first match at or after it
    let s2 = search_with("foo", 1);
    assert_eq!(s2.current_match_line(), Some(2));
    // past the last match: wraps to the first
    let s3 = search_with("foo", 4);
    assert_eq!(s3.current_match_line(), Some(0));
    // multiple matches on one line (line 2 has two "bar"s)
    let s4 = search_with("bar", 0);
    let (ranges, cur) = s4.line_ranges(2);
    assert_eq!(ranges.len(), 2);
    assert_eq!(cur, None);
}

#[test]
fn next_prev_wrap_around() {
    let mut s = search_with("foo", 0);
    assert_eq!(s.next_match(), Some(2));
    assert_eq!(s.next_match(), Some(3));
    assert_eq!(s.next_match(), Some(0)); // wrapped
    assert_eq!(s.prev_match(), Some(3)); // wrapped back
    assert_eq!(s.prev_match(), Some(2));
    // two matches on one line are stepped through individually
    let mut s = search_with("bar", 0);
    assert_eq!(s.next_match(), Some(2));
    assert_eq!(s.next_match(), Some(2)); // second match on line 2
    assert_eq!(s.next_match(), Some(0)); // wrapped
}

#[test]
fn status_text_formats() {
    let mut s = TextSearch::new();
    s.start_input();
    assert_eq!(s.status_text(), "/");
    let mut s = search_with("foo", 0);
    assert_eq!(s.status_text(), "/foo  [1/3]");
    s.next_match();
    assert_eq!(s.status_text(), "/foo  [2/3]");
    let s2 = search_with("zzz", 0);
    assert_eq!(s2.status_text(), "/zzz  [no match]");
    assert_eq!(s2.match_count(), 0);
    assert_eq!(s2.current_match_line(), None);
}

#[test]
fn confirm_keeps_highlights_esc_clears() {
    let mut s = search_with("foo", 0);
    assert_eq!(s.input_event(&key(KeyCode::Enter)), InputOutcome::Confirmed);
    assert!(!s.is_input_mode());
    assert!(s.is_active()); // highlights stay
    assert_eq!(s.match_count(), 3);
    // Esc now (outside input mode) is handled by the view via clear()
    s.clear();
    assert!(!s.is_active());
    assert_eq!(s.match_count(), 0);

    // Esc during input cancels everything
    let mut s2 = search_with("foo", 0);
    assert_eq!(s2.input_event(&key(KeyCode::Esc)), InputOutcome::Cancelled);
    assert!(!s2.is_input_mode());
    assert!(!s2.is_active());
    assert_eq!(s2.match_count(), 0);
}

#[test]
fn esc_three_states() {
    // input mode: cancel
    let mut s = search_with("foo", 0);
    assert!(s.is_input_mode());
    assert_eq!(s.esc(), EscAction::CancelInput);
    assert!(!s.is_active());
    // confirmed highlights: clear, view stays open
    let mut s = search_with("foo", 0);
    s.input_event(&key(KeyCode::Enter));
    assert!(s.is_active());
    assert_eq!(s.esc(), EscAction::ClearHighlights);
    assert!(!s.is_active());
    // no search state: the caller closes the view
    assert_eq!(s.esc(), EscAction::ClosePopup);
}

#[test]
fn line_ranges_reports_current_local_index() {
    let mut s = search_with("bar", 0);
    // matches: line 0 [4..7], line 2 [0..3] and [8..11]
    let (ranges, cur) = s.line_ranges(2);
    assert_eq!(ranges, vec![(0, 3), (8, 11)]);
    assert_eq!(cur, None);
    s.next_match(); // now on line 2, first range
    let (ranges, cur) = s.line_ranges(2);
    assert_eq!(ranges.len(), 2);
    assert_eq!(cur, Some(0));
    s.next_match();
    let (_, cur) = s.line_ranges(2);
    assert_eq!(cur, Some(1));
    // a line without matches
    let (ranges, cur) = s.line_ranges(1);
    assert!(ranges.is_empty());
    assert_eq!(cur, None);
}

#[test]
fn matches_are_byte_ranges_without_overlap() {
    let lines = vec!["aaaa", "héllo héllo", ""];
    let mut s = TextSearch::new();
    s.start_input();
    s.input_event(&Event::Paste("aa".to_string()));
    s.recompute(&lines, 0);
    // non-overlapping, left to right
    assert_eq!(s.line_ranges(0).0, vec![(0, 2), (2, 4)]);
    s.start_input();
    s.input_event(&Event::Paste("llo".to_string()));
    s.recompute(&lines, 0);
    // byte offsets: 'é' takes two bytes
    assert_eq!(s.line_ranges(1).0, vec![(3, 6), (10, 13)]);
    assert_eq!(s.current_match_line(), Some(1));
}

#[test]
fn empty_pattern_matches_nothing() {
    let mut s = TextSearch::new();
    s.start_input();
    s.recompute(&lines(), 0);
    assert_eq!(s.match_count(), 0);
    assert_eq!(s.current_match_line(), None);
    assert_eq!(s.next_match(), None);
    assert_eq!(s.prev_match(), None);
    let _ = Match { line: 0, start: 0, end: 0 };
}

#[test]
fn counter_counts_many_matches() {
    let text = "x".repeat(12);
    let lines: Vec<&str> = vec![text.as_str()];
    let mut s = TextSearch::new();
    s.start_input();
    s.input_event(&key(KeyCode::Char('x')));
    s.recompute(&lines, 0);
    for _ in 0..10 {
        s.next_match();
    }
    assert_eq!(s.status_text(), "/x  [11/12]");
    // backspace on an empty pattern keeps it empty
    let mut t = TextSearch::new();
    t.start_input();
    assert_eq!(t.input_event(&key(KeyCode::Backspace)), InputOutcome::Changed);
    assert_eq!(t.pattern(), "");
}

#[test]
fn stepping_goes_round_the_whole_cycle() {
    let mut s = search_with("bar", 0);
    // matches: line 0 [4..7], line 2 [0..3] and [8..11]
    assert_eq!(s.match_count(), 3);
    let start = s.line_ranges(0);
    let mut seen = Vec::new();
    for _ in 0..3 {
        seen.push(s.next_match());
    }
    assert_eq!(seen, vec![Some(2), Some(2), Some(0)]);
    assert_eq!(s.line_ranges(0), start);
    // the ranges of a line are its match indices
    let expected: Vec<(usize, usize)> = "bar foo bar".match_indices("bar").map(|(i, m)| (i, i + m.len())).collect();
    assert_eq!(s.line_ranges(2).0, expected);
}
