use svnui::diff_block::{blame_row, diff_block_rows, diff_row, highlight_spans, number_cell, ranges_fit_text};
use svnui::diff_view::DiffView;
use svnui::keys::{Event, KeyCode, KeyEvent};
use svnui::models::{BlameLine, DiffLine, DiffLineKind};
use svnui::spans::{InfoSpan, Role};

fn texts(r: &[InfoSpan]) -> Vec<String> {
    r.iter().map(|s| s.text.clone()).collect()
}

fn joined(r: &[InfoSpan]) -> String {
    r.iter().map(|s| s.text.as_str()).collect()
}

#[test]
fn highlight_spans_splits_text() {
    // no ranges: single span
    let spans = highlight_spans("abc", &[], None, Role::Text);
    assert_eq!(spans.len(), 1);
    assert_eq!(spans[0].role, Role::Text);
    // ranges at start/middle/end with a current marker
    let spans = highlight_spans("foo bar foo", &[(0, 3), (8, 11)], Some(1), Role::Text);
    assert_eq!(texts(&spans), vec!["foo", " bar ", "foo"]);
    assert_eq!(spans[0].role, Role::Matched);
    assert_eq!(spans[1].role, Role::Text);
    assert_eq!(spans[2].role, Role::Current);
    // trailing text after the last range is kept
    let spans = highlight_spans("foo!", &[(0, 3)], Some(0), Role::Text);
    assert_eq!(spans.len(), 2);
    assert_eq!(spans[1].text, "!");
    // byte ranges over multi-byte text
    let spans = highlight_spans("中文ab中", &[(3, 6), (8, 11)], None, Role::Added);
    assert_eq!(texts(&spans), vec!["中", "文", "ab", "中"]);
    assert_eq!(joined(&spans), "中文ab中");
}

#[test]
fn ranges_that_do_not_fit_are_recognized() {
    assert!(ranges_fit_text("foo bar", &[(0, 3), (4, 7)]));
    assert!(!ranges_fit_text("foo bar", &[(4, 7), (0, 3)]));
    assert!(!ranges_fit_text("foo", &[(0, 4)]));
    // inside a multi-byte char
    assert!(!ranges_fit_text("中", &[(1, 3)]));
}

#[test]
fn line_numbers_are_right_aligned() {
    assert_eq!(number_cell(Some(7), 3), "  7");
    assert_eq!(number_cell(Some(1234), 3), "1234");
    assert_eq!(number_cell(None, 3), "   ");
}

#[test]
fn diff_rows_carry_the_gutter_for_numbered_lines() {
    let l = DiffLine { old: Some(9), new: Some(10), kind: DiffLineKind::Context, content: "x = 1".into() };
    let r = diff_row(&l, &[], None, 3);
    assert_eq!(texts(&r), vec!["  9", " ", " 10", "│ ", "x = 1"]);
    assert_eq!(r[0].role, Role::LineNumber);
    assert_eq!(r[4].role, Role::Text);
    let h = DiffLine { old: None, new: None, kind: DiffLineKind::Hunk, content: "@@ -9 +10 @@".into() };
    let r = diff_row(&h, &[], None, 3);
    assert_eq!(texts(&r), vec!["@@ -9 +10 @@"]);
    assert_eq!(r[0].role, Role::DiffHunk);
    let a = DiffLine { old: None, new: Some(4), kind: DiffLineKind::Added, content: "new foo".into() };
    let r = diff_row(&a, &[(4, 7)], Some(0), 3);
    assert_eq!(texts(&r), vec!["   ", " ", "  4", "│ ", "new ", "foo"]);
    assert_eq!(r[4].role, Role::Added);
    assert_eq!(r[5].role, Role::Current);
    // ranges that do not fit mark nothing
    let r = diff_row(&a, &[(4, 70)], Some(0), 3);
    assert_eq!(texts(&r), vec!["   ", " ", "  4", "│ ", "new foo"]);
}

#[test]
fn diff_block_rows_show_state_header_and_window() {
    let mut v = DiffView::new("t");
    v.set_loading("t".into());
    let rows = diff_block_rows(&v, 10);
    assert_eq!(rows.len(), 1);
    assert_eq!(rows[0][0].text, "Loading...");

    v.set_hint("t".into(), "Working copy is clean".into());
    let rows = diff_block_rows(&v, 10);
    assert_eq!(rows.len(), 1);
    assert_eq!(rows[0][0].text, "Working copy is clean");

    let content = "Index: f\n@@ -1000 +1000 @@\n a\n-b\n+c\n";
    v.set_content("t".into(), content);
    v.set_header(vec!["r3 | alice | 2026-01-01".into()]);
    let rows = diff_block_rows(&v, 10);
    // header, then the five lines
    assert_eq!(rows.len(), 6);
    assert_eq!(rows[0][0].text, "r3 | alice | 2026-01-01");
    assert_eq!(rows[0][0].role, Role::Dim);
    assert_eq!(joined(&rows[3]), "1000 1000│ a");
    assert_eq!(joined(&rows[4]), "1001     │ b");
    assert_eq!(joined(&rows[5]), "     1001│ c");
    // the window: from the scroll offset, `height` rows
    let rows = diff_block_rows(&v, 2);
    assert_eq!(rows.len(), 3);
    v.event(&Event::Key(KeyEvent::plain(KeyCode::Char('j'))));
    let rows = diff_block_rows(&v, 2);
    assert_eq!(joined(&rows[1]), "@@ -1000 +1000 @@");
}

#[test]
fn blame_rows_color_by_revision_and_pad_authors() {
    let l = BlameLine { revision: Some(13), author: "bob".into(), content: "fn main() {}".into() };
    let r = blame_row(&l, &[], None, 6);
    assert_eq!(texts(&r), vec!["     13", " ", "bob   ", "  ", "fn main() {}"]);
    assert_eq!(r[0].role, Role::BlameRev(1));
    assert_eq!(r[2].role, Role::Author);
    let u = BlameLine { revision: None, author: "-".into(), content: "x".into() };
    let r = blame_row(&u, &[(0, 1)], Some(0), 1);
    assert_eq!(texts(&r), vec!["      -", " ", "-", "  ", "x"]);
    assert_eq!(r[0].role, Role::Dim);
    assert_eq!(r[4].role, Role::Current);
    // wide authors count by display width
    let w = BlameLine { revision: Some(24), author: "张三".into(), content: "".into() };
    let r = blame_row(&w, &[], None, 6);
    assert_eq!(r[2].text, "张三  ");
    assert_eq!(r[0].role, Role::BlameRev(0));
}
