use svnui::commit::{CommitComponent, HISTORY_PICKER_LEN};
use svnui::keys::{Event, KeyCode, KeyEvent};
use svnui::queue::{ConfirmAction, InternalEvent};
use unicode_width::UnicodeWidthStr;

fn ev(code: KeyCode) -> Event {
    Event::Key(KeyEvent::plain(code))
}

fn with(code: KeyCode, ctrl: bool, shift: bool) -> Event {
    Event::Key(KeyEvent { code, ctrl, alt: false, shift })
}

fn type_text(c: &mut CommitComponent, s: &str) {
    for ch in s.chars() {
        c.event(&ev(KeyCode::Char(ch))).unwrap();
    }
}

fn focused() -> CommitComponent {
    let mut c = CommitComponent::new();
    c.focus();
    c
}

#[test]
fn typing_and_editing() {
    let mut c = focused();
    type_text(&mut c, "fix: bug");
    assert_eq!(c.text(), "fix: bug");
    for _ in 0..3 {
        c.event(&ev(KeyCode::Left)).unwrap();
    }
    c.event(&ev(KeyCode::Char('X'))).unwrap();
    assert_eq!(c.text(), "fix: Xbug");
    c.event(&ev(KeyCode::Backspace)).unwrap();
    assert_eq!(c.text(), "fix: bug");
    c.event(&ev(KeyCode::Home)).unwrap();
    c.event(&ev(KeyCode::Char('!'))).unwrap();
    assert_eq!(c.text(), "!fix: bug");
    c.event(&ev(KeyCode::End)).unwrap();
    c.event(&ev(KeyCode::Char('!'))).unwrap();
    assert_eq!(c.text(), "!fix: bug!");
}

#[test]
fn enter_pushes_commit_confirm() {
    let mut c = focused();
    type_text(&mut c, "修复 bug");
    c.event(&ev(KeyCode::Enter)).unwrap();
    match c.take_events().first() {
        Some(InternalEvent::Confirm(ConfirmAction::Commit { message, paths })) => {
            assert_eq!(message, "修复 bug");
            assert!(paths.is_empty());
        },
        other => panic!("unexpected {other:?}"),
    }
}

#[test]
fn modifier_keys_do_not_insert_or_commit() {
    let mut c = focused();
    let state = c.event(&with(KeyCode::Char('c'), true, false)).unwrap();
    assert!(!state.consumed);
    assert_eq!(c.text(), "");
    let state = c.event(&with(KeyCode::Enter, false, true)).unwrap();
    assert!(state.consumed);
    assert!(c.take_events().is_empty(), "Shift+Enter must not commit");
    c.event(&ev(KeyCode::Enter)).unwrap();
    assert!(matches!(c.take_events().first(), Some(InternalEvent::Confirm(ConfirmAction::Commit { .. }))));
}

#[test]
fn ctrl_s_pushes_commit_confirm() {
    let mut c = focused();
    type_text(&mut c, "fix something");
    let state = c.event(&with(KeyCode::Char('s'), true, false)).unwrap();
    assert!(state.consumed);
    match c.take_events().first() {
        Some(InternalEvent::Confirm(ConfirmAction::Commit { message, paths })) => {
            assert_eq!(message, "fix something");
            assert!(paths.is_empty());
        },
        other => panic!("unexpected {other:?}"),
    }
    assert_eq!(c.text(), "fix something");
}

#[test]
fn history_picker_swallows_char_keys() {
    let mut c = focused();
    c.set_history(vec!["one".to_string(), "two".to_string()]);
    c.event(&ev(KeyCode::Tab)).unwrap();
    assert!(c.event(&ev(KeyCode::Char('x'))).unwrap().consumed);
    assert_eq!(c.text(), "");
    assert!(c.event(&with(KeyCode::Char('s'), true, false)).unwrap().consumed);
    assert!(c.take_events().is_empty(), "picker must not leak a commit event");
    c.event(&ev(KeyCode::Esc)).unwrap();
    c.event(&ev(KeyCode::Char('x'))).unwrap();
    assert_eq!(c.text(), "x");
}

#[test]
fn set_history_truncates_to_picker_len() {
    let mut c = CommitComponent::new();
    c.set_history((0..25).map(|i| format!("m{i}")).collect());
    assert_eq!(c.history().len(), HISTORY_PICKER_LEN);
    assert_eq!(c.history().last().unwrap(), "m9");
    c.focus();
    c.event(&ev(KeyCode::Tab)).unwrap();
    for _ in 0..9 {
        c.event(&ev(KeyCode::Down)).unwrap();
    }
    assert_eq!(c.history_sel(), 9);
    c.set_history(vec!["a".to_string(), "b".to_string(), "c".to_string()]);
    assert_eq!(c.history_sel(), 2);
    c.event(&ev(KeyCode::Enter)).unwrap();
    assert_eq!(c.text(), "c");
}

#[test]
fn esc_unfocuses_and_unfocused_ignores() {
    let mut c = CommitComponent::new();
    assert!(!c.focused());
    assert!(!c.event(&ev(KeyCode::Char('q'))).unwrap().consumed);
    c.focus();
    c.event(&ev(KeyCode::Char('q'))).unwrap();
    assert_eq!(c.text(), "q");
    c.event(&ev(KeyCode::Esc)).unwrap();
    assert!(!c.focused());
}

#[test]
fn clear_resets_text_and_cursor() {
    let mut c = focused();
    type_text(&mut c, "some message");
    assert_eq!(c.text(), "some message");
    c.clear();
    assert_eq!(c.text(), "");
    assert_eq!(c.cursor(), (0, 0));
}

#[test]
fn tab_opens_history_picker_and_enter_fills() {
    let mut c = focused();
    c.set_history(vec!["fix: first".to_string(), "feat: second".to_string()]);
    c.event(&ev(KeyCode::Tab)).unwrap();
    c.event(&ev(KeyCode::Down)).unwrap();
    c.event(&ev(KeyCode::Enter)).unwrap();
    assert_eq!(c.text(), "feat: second");
    c.event(&ev(KeyCode::Char('!'))).unwrap();
    assert_eq!(c.text(), "feat: second!");
}

#[test]
fn history_picker_esc_and_empty_history() {
    let mut c = focused();
    assert!(c.event(&ev(KeyCode::Tab)).unwrap().consumed);
    assert!(c.focused());
    c.set_history(vec!["only".to_string()]);
    c.event(&ev(KeyCode::Tab)).unwrap();
    c.event(&ev(KeyCode::Esc)).unwrap();
    assert_eq!(c.text(), "");
    c.event(&ev(KeyCode::Esc)).unwrap();
    assert!(!c.focused());
}

#[test]
fn paste_inserts_text_verbatim() {
    let mut c = focused();
    c.event(&Event::Paste("修复：第一行\n第二行".to_string())).unwrap();
    assert_eq!(c.text(), "修复：第一行\n第二行");
    assert!(c.take_events().is_empty(), "paste must not commit");
}

#[test]
fn backspace_deletes_whole_cjk_char() {
    let mut c = focused();
    type_text(&mut c, "中a");
    c.event(&ev(KeyCode::Backspace)).unwrap();
    assert_eq!(c.text(), "中");
    c.event(&ev(KeyCode::Backspace)).unwrap();
    assert_eq!(c.text(), "");
}

/// The screen column of the cursor in a bordered box: the border, then the
/// cells of the line's text before the cursor.
fn cursor_cell_x(c: &CommitComponent) -> usize {
    let (row, col) = c.cursor();
    let line = &c.lines()[row];
    let before: String = line.chars().take(col).collect();
    1 + before.width()
}

#[test]
fn cjk_cursor_aligns_to_cells() {
    let mut c = focused();
    type_text(&mut c, "中文ab");
    // move cursor 2 left → after "中文"
    c.event(&ev(KeyCode::Left)).unwrap();
    c.event(&ev(KeyCode::Left)).unwrap();
    // screen x = border(1) + cells of "中文"(4) = 5
    assert_eq!(cursor_cell_x(&c), 5, "cursor after '中文' must be at cell 5");
    // type another char: it lands between 中文 and ab
    c.event(&ev(KeyCode::Char('c'))).unwrap();
    assert_eq!(c.text(), "中文cab");
    // cursor now after "中文c": cells = 4 + 1 → x = 6
    assert_eq!(cursor_cell_x(&c), 6);
    // end of line: cells = width("中文cab") = 7 → x = 8
    c.event(&ev(KeyCode::End)).unwrap();
    assert_eq!(cursor_cell_x(&c), 8);
}

#[test]
fn cjk_cursor_mixed_width() {
    let mut c = focused();
    type_text(&mut c, "ab中文");
    // cursor at end: cells = 1+1+2+2 = 6 → x = 7
    assert_eq!(cursor_cell_x(&c), 7);
    // backspace removes "文" → "ab中"; cursor after 中 → x = 5
    c.event(&ev(KeyCode::Backspace)).unwrap();
    assert_eq!(c.text(), "ab中");
    assert_eq!(cursor_cell_x(&c), 5);
}

#[test]
fn backspace_handles_multi_scalar_emoji() {
    let mut c = focused();
    type_text(&mut c, "👨\u{200d}👩\u{200d}👧");
    assert_eq!(c.text().chars().count(), 5); // 3 emoji scalars + 2 ZWJ
    for _ in 0..5 {
        c.event(&ev(KeyCode::Backspace)).unwrap();
    }
    assert_eq!(c.text(), "");
}
