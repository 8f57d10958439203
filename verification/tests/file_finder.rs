use svnui::file_finder::{result_line, FileFinderPopup};
use svnui::keys::{Event, KeyCode, KeyEvent};
use svnui::queue::InternalEvent;
use svnui::spans::Role;

fn key(code: KeyCode) -> Event {
    Event::Key(KeyEvent::plain(code))
}

fn ctrl(c: char) -> Event {
    Event::Key(KeyEvent { code: KeyCode::Char(c), ctrl: true, alt: false, shift: false })
}

fn comp() -> FileFinderPopup {
    let mut p = FileFinderPopup::new();
    p.update(vec![
        "src/main.rs".into(),
        "src/components/status_tree.rs".into(),
        "docs/readme.md".into(),
        "Cargo.toml".into(),
    ]);
    p
}

fn type_str(p: &mut FileFinderPopup, s: &str) {
    for ch in s.chars() {
        p.event(&key(KeyCode::Char(ch))).unwrap();
    }
}

#[test]
fn fuzzy_matching_smart_case_and_ordering() {
    // subsequence match across path segments
    let mut p = comp();
    type_str(&mut p, "smr");
    assert_eq!(p.selected_path().as_deref(), Some("src/main.rs"));
    // smart case: lowercase query matches uppercase letters
    let mut p = comp();
    type_str(&mut p, "cargo");
    assert_eq!(p.selected_path().as_deref(), Some("Cargo.toml"));
    // non-subsequence yields nothing
    let mut p = comp();
    type_str(&mut p, "xyz");
    assert!(p.selected_path().is_none());
    // consecutive matches rank above scattered ones
    let mut p = FileFinderPopup::new();
    p.update(vec!["m_a_i_n.rs".into(), "main.rs".into()]);
    type_str(&mut p, "main");
    assert_eq!(p.selected_path().as_deref(), Some("main.rs"));
}

#[test]
fn matched_chars_are_highlighted() {
    let mut p = FileFinderPopup::new();
    p.update(vec!["xab.rs".into()]);
    type_str(&mut p, "ab");
    let (i, matched) = &p.results()[0];
    let row = result_line(&p.files()[*i], matched);
    // matched chars 'a','b' are in the match style, the others not
    assert_eq!(row[0].text, "x");
    assert_eq!(row[0].role, Role::Text);
    assert_eq!(row[1].role, Role::Matched);
    assert_eq!(row[2].role, Role::Matched);
    assert_eq!(row[3].role, Role::Text);
    assert_eq!(row.len(), 6);
}

#[test]
fn typing_filters_and_enter_opens_history() {
    let mut p = comp();
    type_str(&mut p, "stree");
    assert_eq!(p.selected_path().as_deref(), Some("src/components/status_tree.rs"));
    p.event(&key(KeyCode::Enter)).unwrap();
    let q = p.take_events();
    assert!(matches!(q.first(), Some(InternalEvent::ClosePopup)));
    assert!(matches!(
        q.get(1),
        Some(InternalEvent::OpenFileHistory(path)) if path == "src/components/status_tree.rs"
    ));
}

#[test]
fn ctrl_b_blames_highlighted_file() {
    let mut p = comp();
    type_str(&mut p, "stree");
    assert_eq!(p.selected_path().as_deref(), Some("src/components/status_tree.rs"));
    // Ctrl+b requests blame and keeps the finder open (no ClosePopup)
    assert!(p.event(&ctrl('b')).unwrap().consumed);
    let q = p.take_events();
    assert!(matches!(
        q.first(),
        Some(InternalEvent::RequestBlame(path)) if path == "src/components/status_tree.rs"
    ));
    assert_eq!(q.len(), 1);
    // a bare 'b' is query text, not blame
    type_str(&mut p, "b");
    assert!(p.take_events().is_empty());
    // no selection (empty result list): no event
    let mut p2 = comp();
    type_str(&mut p2, "zzz-no-match");
    p2.event(&ctrl('b')).unwrap();
    assert!(p2.take_events().is_empty());
}

#[test]
fn navigation_backspace_esc() {
    let mut p = comp();
    assert_eq!(p.selected_path().as_deref(), Some("src/main.rs"));
    p.event(&key(KeyCode::Down)).unwrap();
    assert_eq!(p.selected_path().as_deref(), Some("src/components/status_tree.rs"));
    p.event(&key(KeyCode::Up)).unwrap();
    p.event(&key(KeyCode::PageDown)).unwrap();
    p.event(&key(KeyCode::PageUp)).unwrap();
    assert_eq!(p.selected_path().as_deref(), Some("src/main.rs"));
    // backspace edits the query
    type_str(&mut p, "zz");
    assert!(p.selected_path().is_none());
    p.event(&key(KeyCode::Backspace)).unwrap();
    p.event(&key(KeyCode::Backspace)).unwrap();
    assert_eq!(p.selected_path().as_deref(), Some("src/main.rs"));
    // ctrl combos are not query text
    p.event(&ctrl('c')).unwrap();
    assert!(p.query().is_empty());
    // paste appends to the query
    p.event(&Event::Paste("readme".into())).unwrap();
    assert_eq!(p.selected_path().as_deref(), Some("docs/readme.md"));
    // Esc closes
    p.event(&key(KeyCode::Esc)).unwrap();
    assert!(matches!(p.take_events().first(), Some(InternalEvent::ClosePopup)));
}

#[test]
fn file_finder_draw_states() {
    let mut p = FileFinderPopup::new();
    // loading until the file list arrives
    assert!(p.pending());
    p.update(vec!["a.txt".into()]);
    assert!(!p.pending());
    assert_eq!(p.files().len(), 1);
    assert_eq!(p.results().len(), 1);
    // no match state
    type_str(&mut p, "qqq");
    assert!(p.results().is_empty());
}

#[test]
fn empty_query_lists_every_file_in_order() {
    let p = comp();
    let idx: Vec<usize> = p.results().iter().map(|(i, _)| *i).collect();
    assert_eq!(idx, vec![0, 1, 2, 3]);
    assert!(p.results().iter().all(|(_, m)| m.is_empty()));
}

#[test]
fn results_are_capped() {
    let mut p = FileFinderPopup::new();
    let files: Vec<String> = (0..250).map(|i| format!("f{i}.rs")).collect();
    p.update(files);
    assert_eq!(p.results().len(), 200);
    assert_eq!(p.files().len(), 250);
}

#[test]
fn selection_stays_on_a_result() {
    let mut p = comp();
    p.move_selection(100);
    assert_eq!(p.selection(), 3);
    p.move_selection(-100);
    assert_eq!(p.selection(), 0);
}

#[test]
fn title_counts_the_files() {
    let mut p = FileFinderPopup::new();
    assert_eq!(p.title(), "Find file (0 files)");
    p.update(vec!["a.txt".into(), "src/main.rs".into()]);
    assert_eq!(p.title(), "Find file (2 files)");
}
