use svnui::diff_view::{
    line_number_width, looks_like_diff, range_header, revision_header, DiffView, DIFF_HEADER_MAX,
};
use svnui::keys::{Event, KeyCode, KeyEvent};
use svnui::models::{DiffLineKind, LogEntry};
use svnui::parser::parse_diff;

const DIFF: &str = "\
Index: Cargo.toml
===================================================================
--- Cargo.toml\t(revision 1)
+++ Cargo.toml\t(working copy)
@@ -1 +1,2 @@
 version = 1
+extra
\\ No newline at end of file
";

fn key(code: KeyCode) -> Event {
    Event::Key(KeyEvent::plain(code))
}

#[test]
fn header_builders_cap_at_five_lines() {
    let e = LogEntry {
        revision: 7,
        author: "alice".into(),
        date: "2026-01-01".into(),
        line_count: 9,
        changed: vec![],
        message: "line1\nline2\nline3\nline4\nline5\nline6\nline7".into(),
    };
    let h = revision_header(&e);
    assert_eq!(h.len(), DIFF_HEADER_MAX);
    assert_eq!(h[0], "r7 | alice | 2026-01-01");
    assert_eq!(h[1], "line1");
    // truncated: the last shown message line gets the ellipsis
    assert_eq!(h[4], "line4 …");

    // a short message is not truncated
    let short = LogEntry { message: "only line".into(), line_count: 1, ..e };
    let h2 = revision_header(&short);
    assert_eq!(h2, vec!["r7 | alice | 2026-01-01", "only line"]);
}

#[test]
fn range_header_counts_commits_and_summarizes_newest() {
    let mk = |rev: u64, msg: &str| LogEntry {
        revision: rev,
        author: "a".into(),
        date: "d".into(),
        line_count: 1,
        changed: vec![],
        message: msg.to_string(),
    };
    // log order is newest first
    let entries = vec![mk(9, "newest\nsecond line"), mk(5, "mid"), mk(3, "old")];
    let h = range_header(3, 9, &entries);
    assert_eq!(h[0], "r3..r9 (3 commits)");
    assert_eq!(h[1], "newest");
    assert_eq!(h[2], "second line");
    assert!(h.len() <= DIFF_HEADER_MAX);

    // long newest message is capped
    let long = vec![mk(9, "1\n2\n3\n4\n5\n6"), mk(3, "x")];
    let h2 = range_header(3, 9, &long);
    assert_eq!(h2.len(), DIFF_HEADER_MAX);
    assert!(h2.last().unwrap().ends_with(" …"));

    // no loaded entries in range → no count, just the range
    let h3 = range_header(50, 60, &entries);
    assert_eq!(h3, vec!["r50..r60"]);
}

#[test]
fn set_header_caps_at_max() {
    let mut v = DiffView::new("t");
    v.set_header((0..10).map(|i| format!("line {i}")).collect());
    assert_eq!(v.header().len(), DIFF_HEADER_MAX);
    let mut v2 = DiffView::new("t");
    v2.set_header(Vec::new());
    assert!(v2.header().is_empty());
}

#[test]
fn parses_real_diff_with_numbers() {
    let mut v = DiffView::new("t");
    v.set_content("Cargo.toml".into(), DIFF);
    assert!(!v.pending);
    assert!(v.empty_reason.is_none());
    assert_eq!(v.parsed.lines.len(), 8);
    assert_eq!(v.parsed.lines[0].kind, DiffLineKind::Header);
    assert_eq!(v.parsed.lines[4].kind, DiffLineKind::Hunk);
    let ctx_line = &v.parsed.lines[5];
    assert_eq!(ctx_line.kind, DiffLineKind::Context);
    assert_eq!(ctx_line.new, Some(1));
    let add = &v.parsed.lines[6];
    assert_eq!(add.kind, DiffLineKind::Added);
    assert_eq!(add.new, Some(2));
    assert_eq!(v.num_w, 3);
}

#[test]
fn new_file_content_and_empty() {
    let mut v = DiffView::new("t");
    v.set_content("new.txt".into(), "line1\nline2\n");
    assert!(v.empty_reason.is_none());
    assert_eq!(v.parsed.lines.len(), 2);
    assert_eq!(v.parsed.lines[1].new, Some(2));
    assert_eq!(v.parsed.lines[1].kind, DiffLineKind::Added);

    let mut v2 = DiffView::new("t");
    v2.set_content("x".into(), "   \n  ");
    assert!(v2.empty_reason.is_some());
}

#[test]
fn property_changes_treated_as_diff() {
    let mut v = DiffView::new("t");
    v.set_content("p".into(), "Property changes on: f\n___\nAdded: svn:executable\n");
    assert!(v.empty_reason.is_none());
    assert_eq!(v.parsed.lines.len(), 3);
}

#[test]
fn at_at_mid_line_is_not_a_diff() {
    // raw unversioned text containing "@@" must render as all-added
    // lines, not be misparsed as a diff
    let mut v = DiffView::new("t");
    v.set_content("notes.txt".into(), "mail me at foo@@bar\nplain line\n");
    assert!(v.empty_reason.is_none());
    assert_eq!(v.parsed.lines.len(), 2);
    for line in &v.parsed.lines {
        assert_eq!(line.kind, DiffLineKind::Added);
    }
    assert_eq!(v.parsed.lines[1].new, Some(2));
    // a real diff still parses
    let mut v2 = DiffView::new("t");
    v2.set_content("Cargo.toml".into(), DIFF);
    assert!(v2.parsed.lines.iter().any(|l| l.kind == DiffLineKind::Hunk));
}

#[test]
fn at_at_line_start_inside_plain_text_is_not_a_diff() {
    let mut v = DiffView::new("t");
    v.set_content("notes.txt".into(), "patch draft:\n@@ -1 +1 @@\n+not a diff line\n");
    assert!(v.empty_reason.is_none());
    assert_eq!(v.parsed.lines.len(), 3);
    for (i, line) in v.parsed.lines.iter().enumerate() {
        assert_eq!(line.kind, DiffLineKind::Added);
        assert_eq!(line.new, Some(i as u64 + 1));
    }
    // the "@@ " line keeps its characters (no stripped prefix)
    assert_eq!(v.parsed.lines[1].content, "@@ -1 +1 @@");
    assert_eq!(v.parsed.lines[2].content, "+not a diff line");
}

#[test]
fn patch_files_without_index_header_are_still_diffs() {
    // patch preview feeds raw patch files into the diff popup: both
    // git-format and plain `diff -u` patches lack the "Index: " header
    let mut v = DiffView::new("t");
    v.set_content("p.patch".into(), "diff --git a/f b/f\n--- a/f\n+++ b/f\n@@ -1 +1 @@\n-a\n+b\n");
    assert!(v.parsed.lines.iter().any(|l| l.kind == DiffLineKind::Hunk));
    let mut v2 = DiffView::new("t");
    v2.set_content("q.patch".into(), "--- f.orig\n+++ f\n@@ -1 +1 @@\n-a\n+b\n");
    assert!(v2.parsed.lines.iter().any(|l| l.kind == DiffLineKind::Hunk));
    // but YAML front matter ("---" followed by a key) is plain text
    let mut v3 = DiffView::new("t");
    v3.set_content("doc.md".into(), "---\ntitle: hello\n---\nbody\n");
    assert!(
        v3.parsed.lines.iter().all(|l| l.kind == DiffLineKind::Added),
        "markdown front matter must not parse as a diff"
    );
}

#[test]
fn four_digit_line_numbers_widen_gutter() {
    let mut v = DiffView::new("t");
    let content = format!("Index: f\n@@ -1000 +1000 @@\n {}\n", "x".repeat(200));
    v.set_content("t".into(), &content);
    // 4-digit line numbers: gutter = 2*4 + 3 = 11 columns
    assert_eq!(v.num_w, 4);
    assert_eq!(v.tv.max_width, 200 + 11);
}

#[test]
fn horizontal_scroll_moves_by_eight_and_resets() {
    let mut v = DiffView::new("t");
    let content = format!("Index: f\n@@ -1 +1 @@\n+{}\n", "x".repeat(200));
    v.set_content("t".into(), &content);
    assert_eq!(v.tv.hscroll, 0);
    assert_eq!(v.tv.max_width, 209);
    v.event(&key(KeyCode::Char('l')));
    assert_eq!(v.tv.hscroll, 8);
    v.event(&key(KeyCode::Char('l')));
    v.event(&key(KeyCode::Char('h')));
    assert_eq!(v.tv.hscroll, 8);
    // new content resets both offsets
    v.set_content("t".into(), &content);
    assert_eq!(v.tv.hscroll, 0);
    assert_eq!(v.tv.scroll, 0);
}

#[test]
fn scrolling_clamps() {
    let mut v = DiffView::new("t");
    v.set_content("t".into(), DIFF);
    v.event(&key(KeyCode::Char('j')));
    assert_eq!(v.tv.scroll, 1);
    v.event(&key(KeyCode::Char('G')));
    assert_eq!(v.tv.scroll, 8);
    v.event(&key(KeyCode::Char('g')));
    assert_eq!(v.tv.scroll, 0);
    v.event(&key(KeyCode::PageDown));
    assert_eq!(v.tv.scroll, 8); // bounded by content
    v.event(&key(KeyCode::PageUp));
    assert_eq!(v.tv.scroll, 0);
    // unknown key not consumed
    let state = v.event(&key(KeyCode::Char('x')));
    assert!(!state.consumed);
    v.event(&key(KeyCode::Char('G')));
    v.event(&key(KeyCode::Char('j')));
    assert_eq!(v.tv.scroll, 8);
}

#[test]
fn search_event_reveals_by_scrolling() {
    let mut v = DiffView::new("t");
    v.set_content("t".into(), "aaaa\nneedle one\nplain\nneedle two\n");
    // search is off in the pane
    assert!(v.search_event(&key(KeyCode::Char('/'))).is_none());
    v.search_enabled = true;
    assert!(v.search_event(&key(KeyCode::Char('/'))).unwrap().consumed);
    for ch in "needle".chars() {
        v.search_event(&key(KeyCode::Char(ch)));
    }
    assert_eq!(v.tv.scroll, 1);
    v.search_event(&key(KeyCode::Enter));
    v.search_event(&key(KeyCode::Char('n')));
    assert_eq!(v.tv.scroll, 3);
    assert_eq!(v.tv.search.status_text(), "/needle  [2/2]");
    // unrelated keys fall through
    assert!(v.search_event(&key(KeyCode::Char('x'))).is_none());
}

#[test]
fn hint_and_loading_states() {
    let mut v = DiffView::new("Diff");
    assert!(v.pending);
    v.set_hint("Diff".into(), "no content".into());
    assert!(!v.pending);
    assert_eq!(v.empty_reason.as_deref(), Some("no content"));
    assert!(v.parsed.lines.is_empty());
    v.set_loading("Loading diff".into());
    assert!(v.pending);
    assert_eq!(v.title, "Loading diff");
    assert!(v.empty_reason.is_none());
}

#[test]
fn line_number_width_and_diff_detection() {
    let d = parse_diff("Index: f\n@@ -99998 +99999,2 @@\n a\n+b\n");
    assert_eq!(line_number_width(&d), 6);
    assert_eq!(line_number_width(&parse_diff("")), 3);
    assert!(looks_like_diff("  \n\nIndex: x\n"));
    assert!(!looks_like_diff(""));
    assert!(!looks_like_diff("--- a\nno plus line\n"));
    assert!(looks_like_diff("--- a\n+++ b\n"));
}
