use svnui::models::{StatusEntry, TreeItemKind};
use svnui::status_tree::{build_tree, flatten, stageable, tree_rows};

fn entry(status: char, path: &str, is_dir: bool) -> StatusEntry {
    StatusEntry { status, props_status: ' ', tree_conflict: ' ', path: path.to_string(), is_dir }
}

#[test]
fn test_build_tree_and_flatten() {
    let entries = vec![
        entry('M', "Cargo.toml", false),
        entry('?', "newfile.txt", false),
        entry('M', "src/main.rs", false),
        entry('A', "src/lib/foo.rs", false),
    ];
    let nodes = build_tree(&entries);
    // the roots: src, Cargo.toml, newfile.txt
    assert_eq!(nodes.iter().filter(|n| n.depth == 0).count(), 3);
    let src = nodes.iter().find(|n| n.name == "src").unwrap();
    assert!(src.is_dir);
    let expanded = vec!["src".to_string()];
    let mut visible = Vec::new();
    flatten(&nodes, &expanded, &mut visible);
    assert_eq!(visible.len(), 5);
    // dirs first
    assert_eq!(visible[0].name, "src");
    assert_eq!(visible[0].depth, 0);
    let main = visible.iter().find(|t| t.path == "src/main.rs").unwrap();
    assert_eq!(main.depth, 1);
    let lib = visible.iter().find(|t| t.path == "src/lib").unwrap();
    assert!(matches!(lib.kind, TreeItemKind::Dir { .. }));
    // collapsed: src children hidden
    let mut visible2 = Vec::new();
    flatten(&nodes, &[], &mut visible2);
    assert_eq!(visible2.len(), 3);
}

#[test]
fn tree_order_is_dirs_first_then_names_and_preorder() {
    let entries = vec![
        entry('M', "b.txt", false),
        entry('M', "a/z.txt", false),
        entry('M', "a/b/c.txt", false),
        entry('M', "a-file", false),
        entry('?', "dir", true),
    ];
    let nodes = build_tree(&entries);
    let paths: Vec<&str> = nodes.iter().map(|n| n.path.as_str()).collect();
    assert_eq!(paths, vec!["a", "a/b", "a/b/c.txt", "a/z.txt", "dir", "a-file", "b.txt"]);
    let depths: Vec<usize> = nodes.iter().map(|n| n.depth).collect();
    assert_eq!(depths, vec![0, 1, 2, 1, 0, 0, 0]);
    let dir = nodes.iter().find(|n| n.path == "dir").unwrap();
    assert!(dir.is_dir);
    assert_eq!(dir.entry, Some(4));
    let a = nodes.iter().find(|n| n.path == "a").unwrap();
    assert_eq!(a.entry, None);
}

#[test]
fn repeated_path_keeps_last_entry_and_deleted_dir_stays_dir() {
    // `svn rm dir`: the dir is gone from disk (is_dir false) but has children
    let entries = vec![
        entry('D', "gone", false),
        entry('D', "gone/x.txt", false),
        entry('M', "f.txt", false),
        entry('C', "f.txt", false),
    ];
    let nodes = build_tree(&entries);
    let gone = nodes.iter().find(|n| n.path == "gone").unwrap();
    assert!(gone.is_dir);
    assert_eq!(gone.entry, Some(0));
    let f = nodes.iter().find(|n| n.path == "f.txt").unwrap();
    assert_eq!(f.entry, Some(3));
    assert_eq!(nodes.len(), 3);
    let rows = tree_rows(&entries, &["gone".to_string()]);
    let names: Vec<&str> = rows.iter().map(|r| r.name.as_str()).collect();
    assert_eq!(names, vec!["gone", "x.txt", "f.txt"]);
    assert!(matches!(rows[0].kind, TreeItemKind::Dir { expanded: true }));
    assert!(matches!(rows[2].kind, TreeItemKind::File { entry: 3 }));
}

#[test]
fn stageable_rejects_missing_obstructed_conflicted() {
    assert!(stageable(&entry('M', "a", false)));
    assert!(stageable(&entry('?', "a", false)));
    assert!(!stageable(&entry('!', "a", false)));
    assert!(!stageable(&entry('~', "a", false)));
    assert!(!stageable(&entry('C', "a", false)));
    let mut tc = entry('M', "a", false);
    tc.tree_conflict = 'C';
    assert!(!stageable(&tc));
}

#[test]
fn empty_and_odd_paths() {
    assert!(build_tree(&[]).is_empty());
    let nodes = build_tree(&[entry('M', "a//b", false)]);
    let paths: Vec<&str> = nodes.iter().map(|n| n.path.as_str()).collect();
    assert_eq!(paths, vec!["a", "a/", "a//b"]);
    assert_eq!(nodes[1].name, "");
}

// ----- the tree pane -----

use svnui::components::EventState;
use svnui::keys::{Event, KeyCode, KeyEvent};
use svnui::queue::{ConfirmAction, InternalEvent, Tab};
use svnui::status_tree::StatusTreeComponent;
use std::time::{Duration, Instant};

fn file(status: char, path: &str) -> StatusEntry {
    entry(status, path, false)
}

fn dir_entry(status: char, path: &str) -> StatusEntry {
    entry(status, path, true)
}

/// The requests the pane queued, oldest first, popped one at a time.
struct Requests(Vec<InternalEvent>);

impl Requests {
    fn pop(&mut self, c: &mut StatusTreeComponent) -> Option<InternalEvent> {
        self.0.extend(c.take_events());
        if self.0.is_empty() {
            None
        } else {
            Some(self.0.remove(0))
        }
    }
}

fn comp_with(entries: Vec<StatusEntry>) -> (StatusTreeComponent, Requests) {
    let mut c = StatusTreeComponent::new();
    c.update(entries);
    (c, Requests(Vec::new()))
}

fn key(code: KeyCode) -> Event {
    Event::Key(KeyEvent::plain(code))
}

fn press(c: &mut StatusTreeComponent, code: KeyCode) -> EventState {
    c.event(&key(code)).unwrap()
}

fn staged(c: &StatusTreeComponent, p: &str) -> bool {
    c.is_staged(&p.to_string())
}

#[test]
fn test_stage_toggle() {
    let (mut comp, _q) = comp_with(vec![file('M', "a.txt")]);
    let (added, removed) = comp.toggle_stage_at_selection();
    assert_eq!(added, vec!["a.txt"]);
    assert!(removed.is_empty());
    let (added, removed) = comp.toggle_stage_at_selection();
    assert!(added.is_empty());
    assert_eq!(removed, vec!["a.txt"]);
}

#[test]
fn navigation_moves_selection() {
    let (mut c, _q) = comp_with(vec![file('M', "a.txt"), file('?', "b.txt")]);
    // files sorted: a.txt, b.txt
    assert_eq!(c.selection_path().as_deref(), Some("a.txt"));
    assert!(press(&mut c, KeyCode::Char('j')).consumed);
    assert_eq!(c.selection_path().as_deref(), Some("b.txt"));
    press(&mut c, KeyCode::Char('j')); // clamp at end
    assert_eq!(c.selection_path().as_deref(), Some("b.txt"));
    press(&mut c, KeyCode::Char('k'));
    assert_eq!(c.selection_path().as_deref(), Some("a.txt"));
    press(&mut c, KeyCode::End);
    assert_eq!(c.selection_path().as_deref(), Some("b.txt"));
    press(&mut c, KeyCode::Home);
    assert_eq!(c.selection_path().as_deref(), Some("a.txt"));
    // arrow keys work too
    press(&mut c, KeyCode::Down);
    assert_eq!(c.selection_path().as_deref(), Some("b.txt"));
    // unknown keys are not consumed
    assert!(!press(&mut c, KeyCode::Char('q')).consumed);
}

#[test]
fn expand_collapse_dir() {
    let (mut c, mut q) = comp_with(vec![file('M', "src/main.rs"), file('M', "a.txt")]);
    // dirs first: src, then a.txt
    assert_eq!(c.selection_path().as_deref(), Some("src"));
    // expand with l / right arrow
    press(&mut c, KeyCode::Char('l'));
    assert_eq!(c.visible().len(), 3);
    assert!(matches!(c.visible()[0].kind, TreeItemKind::Dir { expanded: true }));
    press(&mut c, KeyCode::Right); // no-op on expanded
    // collapse with h
    press(&mut c, KeyCode::Char('h'));
    assert_eq!(c.visible().len(), 2);
    assert!(matches!(c.visible()[0].kind, TreeItemKind::Dir { expanded: false }));
    // expand with Enter
    press(&mut c, KeyCode::Enter);
    assert_eq!(c.visible().len(), 3);
    // Enter on a file requests a fullscreen diff
    press(&mut c, KeyCode::Char('j')); // src/main.rs
    press(&mut c, KeyCode::Char('j')); // a.txt
    press(&mut c, KeyCode::Enter);
    assert!(matches!(q.pop(&mut c), Some(InternalEvent::RequestFileDiff)));
}

#[test]
fn staging_toggles_and_requests_add() {
    let (mut c, mut q) = comp_with(vec![file('M', "a.txt"), file('?', "b.txt")]);
    // stage a.txt (modified): no svn add needed
    press(&mut c, KeyCode::Char(' '));
    assert!(staged(&c, "a.txt"));
    assert!(q.pop(&mut c).is_none());
    // stage b.txt (unversioned): pushes AddFiles
    press(&mut c, KeyCode::Char('j'));
    press(&mut c, KeyCode::Char(' '));
    assert!(staged(&c, "b.txt"));
    match q.pop(&mut c) {
        Some(InternalEvent::AddFiles(paths)) => assert_eq!(paths, vec!["b.txt"]),
        other => panic!("expected AddFiles, got {other:?}"),
    }
    // unstage
    press(&mut c, KeyCode::Char(' '));
    assert!(!staged(&c, "b.txt"));
}

#[test]
fn dir_staging_stages_descendants() {
    let (mut c, _q) = comp_with(vec![file('M', "src/main.rs"), file('M', "src/lib.rs")]);
    assert_eq!(c.selection_path().as_deref(), Some("src"));
    press(&mut c, KeyCode::Char(' '));
    assert!(staged(&c, "src/main.rs"));
    assert!(staged(&c, "src/lib.rs"));
    assert_eq!(c.staged_count(), 2);
    // toggle off removes both
    press(&mut c, KeyCode::Char(' '));
    assert!(c.staged().is_empty());
}

#[test]
fn add_and_revert_keys() {
    let (mut c, mut q) = comp_with(vec![file('?', "b.txt")]);
    // 'a' adds unversioned files
    press(&mut c, KeyCode::Char('a'));
    assert!(matches!(q.pop(&mut c), Some(InternalEvent::AddFiles(p)) if p == vec!["b.txt"]));
    // 'r' on unversioned → info message (no revert confirm)
    press(&mut c, KeyCode::Char('r'));
    assert!(matches!(q.pop(&mut c), Some(InternalEvent::ShowInfoMsg(_))));
    // 'r' on modified → confirm popup
    let (mut c2, mut q2) = comp_with(vec![file('M', "m.txt")]);
    press(&mut c2, KeyCode::Char('r'));
    assert!(matches!(
        q2.pop(&mut c2),
        Some(InternalEvent::Confirm(ConfirmAction::Revert(p))) if p == vec!["m.txt"]
    ));
}

#[test]
fn commit_update_resolve_keys() {
    let (mut c, mut q) = comp_with(vec![file('C', "c.txt")]);
    press(&mut c, KeyCode::Char('c'));
    assert!(matches!(q.pop(&mut c), Some(InternalEvent::OpenCommit)));
    press(&mut c, KeyCode::Char('u'));
    assert!(matches!(q.pop(&mut c), Some(InternalEvent::Confirm(ConfirmAction::Update))));
    press(&mut c, KeyCode::Char('x'));
    assert!(matches!(
        q.pop(&mut c),
        Some(InternalEvent::Confirm(ConfirmAction::Resolve(p))) if p == "c.txt"
    ));
    // 'x' on non-conflicted file is a no-op
    let (mut c2, mut q2) = comp_with(vec![file('M', "m.txt")]);
    press(&mut c2, KeyCode::Char('x'));
    assert!(q2.pop(&mut c2).is_none());
}

#[test]
fn stage_all_and_unstage_all_keys() {
    let (mut c, mut q) = comp_with(vec![file('M', "a.txt"), file('?', "new.txt"), file('M', "dir/b.txt")]);
    // A stages everything; unversioned files are svn-added
    press(&mut c, KeyCode::Char('A'));
    assert_eq!(c.staged_count(), 3);
    assert!(matches!(
        q.pop(&mut c),
        Some(InternalEvent::AddFiles(paths)) if paths == vec!["new.txt".to_string()]
    ));
    // U clears the commit set
    press(&mut c, KeyCode::Char('U'));
    assert_eq!(c.staged_count(), 0);
    assert!(q.pop(&mut c).is_none());
}

#[test]
fn filter_via_set_filter_and_slash_opens_popup() {
    let (mut c, mut q) = comp_with(vec![file('M', "alpha.txt"), file('?', "beta.txt")]);
    // '/' asks the app to open the filter popup
    press(&mut c, KeyCode::Char('/'));
    assert!(matches!(q.pop(&mut c), Some(InternalEvent::OpenStatusFilter)));
    assert!(c.filter().is_empty());
    // set_filter filters by path substring (case-insensitive)
    c.set_filter("AL".to_string());
    assert_eq!(c.visible().len(), 1);
    assert_eq!(c.visible()[0].path, "alpha.txt");
    // narrowing further keeps only matches
    c.set_filter("alpha".to_string());
    assert_eq!(c.visible().len(), 1);
    // clearing restores the full list
    c.set_filter(String::new());
    assert_eq!(c.visible().len(), 2);
}

#[test]
fn esc_clears_active_filter() {
    let (mut c, _q) = comp_with(vec![file('M', "alpha.txt"), file('?', "beta.txt")]);
    c.set_filter("alpha".to_string());
    assert_eq!(c.visible().len(), 1);
    // Esc with an active filter clears it and is consumed
    assert!(press(&mut c, KeyCode::Esc).consumed);
    assert!(c.filter().is_empty());
    assert_eq!(c.visible().len(), 2);
    // Esc without a filter is not consumed
    assert!(!press(&mut c, KeyCode::Esc).consumed);
}

#[test]
fn refresh_and_tab_keys() {
    let (mut c, mut q) = comp_with(vec![file('M', "a.txt")]);
    press(&mut c, KeyCode::F(5));
    assert!(matches!(q.pop(&mut c), Some(InternalEvent::RefreshStatus)));
    press(&mut c, KeyCode::Char('2'));
    assert!(matches!(q.pop(&mut c), Some(InternalEvent::SwitchTab(Tab::Log))));
    press(&mut c, KeyCode::Char('1'));
    assert!(matches!(q.pop(&mut c), Some(InternalEvent::SwitchTab(Tab::Status))));
    press(&mut c, KeyCode::Char('?'));
    assert!(matches!(q.pop(&mut c), Some(InternalEvent::OpenHelp)));
}

#[test]
fn selection_survives_update() {
    let (mut c, _q) = comp_with(vec![file('M', "src/main.rs"), file('M', "a.txt")]);
    // expand src, then move to src/main.rs
    press(&mut c, KeyCode::Char('l'));
    press(&mut c, KeyCode::Char('j'));
    assert_eq!(c.selection_path().as_deref(), Some("src/main.rs"));
    c.update(vec![file('M', "src/main.rs"), file('M', "a.txt"), file('M', "c.txt")]);
    assert_eq!(c.selection_path().as_deref(), Some("src/main.rs"));
}

#[test]
fn paths_at_selection_for_file_and_dir() {
    let (mut c, _q) = comp_with(vec![file('M', "src/main.rs"), file('M', "src/lib.rs"), file('M', "top.txt")]);
    assert_eq!(c.paths_at_selection(), vec!["src/main.rs", "src/lib.rs"]);
    press(&mut c, KeyCode::End);
    assert_eq!(c.paths_at_selection(), vec!["top.txt"]);
}

#[test]
fn deleted_dir_with_children_is_expandable() {
    // after `svn rm gone` the dir no longer exists on disk (is_dir=false)
    // but status still lists it and its deleted children; the node must
    // still behave as a directory or the children are unreachable
    let (mut c, _q) = comp_with(vec![file('D', "gone"), file('D', "gone/a.txt"), file('D', "gone/b.txt")]);
    assert!(matches!(c.visible()[0].kind, TreeItemKind::Dir { .. }));
    press(&mut c, KeyCode::Char('l')); // expand
    assert_eq!(c.visible().len(), 3);
    assert_eq!(c.visible()[1].path, "gone/a.txt");
    press(&mut c, KeyCode::Char('h')); // collapse
    // staging the dir covers the dir itself and all deleted children
    press(&mut c, KeyCode::Char(' '));
    assert!(staged(&c, "gone"));
    assert!(staged(&c, "gone/a.txt"));
    assert!(staged(&c, "gone/b.txt"));
}

#[test]
fn unversioned_dir_can_be_staged() {
    // svn does not recurse into unversioned dirs, so `? newdir` has no
    // children; the dir's own path must be stageable
    let (mut c, mut q) = comp_with(vec![dir_entry('?', "newdir")]);
    assert_eq!(c.paths_at_selection(), vec!["newdir"]);
    press(&mut c, KeyCode::Char(' '));
    assert!(staged(&c, "newdir"));
    assert!(matches!(q.pop(&mut c), Some(InternalEvent::AddFiles(p)) if p == vec!["newdir"]));
}

#[test]
fn dir_with_own_entry_stages_dir_and_children() {
    let (mut c, _q) = comp_with(vec![dir_entry('M', "dir"), file('M', "dir/f.txt")]);
    assert_eq!(c.paths_at_selection(), vec!["dir", "dir/f.txt"]);
    press(&mut c, KeyCode::Char(' '));
    assert!(staged(&c, "dir"));
    assert!(staged(&c, "dir/f.txt"));
}

#[test]
fn missing_obstructed_conflicted_files_are_not_staged() {
    for status in ['!', '~', 'C'] {
        let (mut c, mut q) = comp_with(vec![file(status, "bad.txt")]);
        press(&mut c, KeyCode::Char(' '));
        assert!(c.staged().is_empty(), "status {status} must not stage");
        assert!(matches!(q.pop(&mut c), Some(InternalEvent::ShowInfoMsg(_))));
    }
    // a tree-conflict flag also refuses staging
    let mut e = file('M', "conf.txt");
    e.tree_conflict = 'C';
    let (mut c, mut q) = comp_with(vec![e]);
    press(&mut c, KeyCode::Char(' '));
    assert!(c.staged().is_empty());
    assert!(matches!(q.pop(&mut c), Some(InternalEvent::ShowInfoMsg(_))));
    // unstaging a previously staged bad path still works
    let (mut c, _q) = comp_with(vec![file('M', "f.txt")]);
    press(&mut c, KeyCode::Char(' '));
    assert!(staged(&c, "f.txt"));
    c.update(vec![file('!', "f.txt")]);
    press(&mut c, KeyCode::Char(' '));
    assert!(c.staged().is_empty());
}

#[test]
fn stage_all_skips_missing_obstructed_conflicted() {
    let (mut c, mut q) = comp_with(vec![
        file('M', "ok.txt"),
        file('!', "missing.txt"),
        file('~', "obstructed.txt"),
        file('C', "conflicted.txt"),
    ]);
    press(&mut c, KeyCode::Char('A'));
    assert_eq!(c.staged_count(), 1);
    assert!(staged(&c, "ok.txt"));
    assert!(matches!(q.pop(&mut c), Some(InternalEvent::ShowInfoMsg(_))));
}

#[test]
fn update_prunes_staged_paths_that_disappeared() {
    let (mut c, _q) = comp_with(vec![file('M', "a.txt"), file('M', "b.txt")]);
    c.set_staged(&["a.txt".to_string(), "b.txt".to_string()]);
    // b.txt is no longer changed (committed or reverted elsewhere)
    c.update(vec![file('M', "a.txt")]);
    assert!(staged(&c, "a.txt"));
    assert!(!staged(&c, "b.txt"));
    assert_eq!(c.staged_count(), 1);
}

#[test]
fn partially_staged_dir_toggle_completes_then_unstages() {
    let (mut c, _q) = comp_with(vec![file('M', "src/main.rs"), file('M', "src/lib.rs")]);
    // one file already staged: space on the dir completes the set
    // instead of inverting each descendant
    c.set_staged(&["src/main.rs".to_string()]);
    press(&mut c, KeyCode::Char(' '));
    assert!(staged(&c, "src/main.rs"));
    assert!(staged(&c, "src/lib.rs"));
    // fully staged: space unstages everything
    press(&mut c, KeyCode::Char(' '));
    assert!(c.staged().is_empty());
}

/// Status entries for the large-working-copy checks: `n` files, all in
/// the root (`wide`) or spread over nested directories.
fn gen_status_entries(n: usize, wide: bool) -> Vec<StatusEntry> {
    (0..n)
        .map(|i| {
            let path = if wide {
                format!("file_{i:06}.rs")
            } else {
                format!("d{}/d{}/d{}/file_{i:06}.rs", i % 10, (i / 10) % 10, (i / 100) % 10)
            };
            file('M', &path)
        })
        .collect()
}

#[test]
fn perf_update_100k_wide_stays_linear() {
    let mut c = StatusTreeComponent::new();
    let entries = gen_status_entries(100_000, true);
    let t = Instant::now();
    c.update(entries);
    let el = t.elapsed();
    assert_eq!(c.visible().len(), 100_000);
    assert!(el < Duration::from_secs(10), "update(100k flat files) took {el:?}; O(n^2) regression?");
}

#[test]
fn perf_update_100k_deep() {
    let mut c = StatusTreeComponent::new();
    let entries = gen_status_entries(100_000, false);
    let t = Instant::now();
    c.update(entries);
    let el = t.elapsed();
    assert!(el < Duration::from_secs(10), "update(100k nested files) took {el:?}");
}

#[test]
fn perf_flatten_100k() {
    let mut c = StatusTreeComponent::new();
    c.update(gen_status_entries(100_000, true));
    let t = Instant::now();
    c.set_filter(String::new());
    let el = t.elapsed();
    assert_eq!(c.visible().len(), 100_000);
    assert!(el < Duration::from_secs(5), "rebuild_visible took {el:?}");
}

#[test]
fn perf_stage_all_100k() {
    let mut c = StatusTreeComponent::new();
    c.update(gen_status_entries(100_000, true));
    let t = Instant::now();
    press(&mut c, KeyCode::Char('A'));
    let el = t.elapsed();
    assert_eq!(c.staged_count(), 100_000);
    assert!(el < Duration::from_secs(5), "StageAll over 100k files took {el:?}; O(n^2) regression?");
}

// ----- more of the pane -----

#[test]
fn stage_all_message_counts_skipped_files() {
    let (mut c, mut q) = comp_with(vec![file('!', "m1"), file('~', "o1"), file('M', "ok")]);
    press(&mut c, KeyCode::Char('A'));
    match q.pop(&mut c) {
        Some(InternalEvent::ShowInfoMsg(m)) => assert_eq!(m, "Skipped 2 missing/obstructed/conflicted file(s)"),
        other => panic!("expected the skipped message, got {other:?}"),
    }
}

#[test]
fn toggle_stage_paths_flips_each_path() {
    let (mut c, _q) = comp_with(vec![file('M', "a"), file('M', "b")]);
    c.set_staged(&["a".to_string()]);
    let (added, removed) = c.toggle_stage_paths(&["a".to_string(), "b".to_string()]);
    assert_eq!(added, vec!["b"]);
    assert_eq!(removed, vec!["a"]);
    assert!(staged(&c, "b") && !staged(&c, "a"));
}

#[test]
fn changed_and_staged_files_are_sorted_by_path() {
    let (mut c, _q) = comp_with(vec![file('M', "z.txt"), dir_entry('?', "d"), file('A', "b/c.txt"), file('?', "a.txt")]);
    assert_eq!(
        c.changed_files(),
        vec![('?', "a.txt".to_string()), ('A', "b/c.txt".to_string()), ('M', "z.txt".to_string())]
    );
    c.set_staged(&["z.txt".to_string(), "gone.txt".to_string(), "a.txt".to_string()]);
    assert_eq!(
        c.staged_files(),
        vec![('?', "a.txt".to_string()), ('?', "gone.txt".to_string()), ('M', "z.txt".to_string())]
    );
    assert_eq!(c.status_char("z.txt"), 'M');
    assert_eq!(c.status_char("nope"), ' ');
}

#[test]
fn blame_and_history_need_a_file() {
    let (mut c, mut q) = comp_with(vec![file('M', "src/a.rs")]);
    // on the directory row nothing is requested
    press(&mut c, KeyCode::Char('b'));
    press(&mut c, KeyCode::Char('t'));
    press(&mut c, KeyCode::Char('d'));
    assert!(q.pop(&mut c).is_none());
    press(&mut c, KeyCode::Char('l'));
    press(&mut c, KeyCode::Char('j'));
    press(&mut c, KeyCode::Char('b'));
    assert!(matches!(q.pop(&mut c), Some(InternalEvent::RequestBlame(p)) if p == "src/a.rs"));
    press(&mut c, KeyCode::Char('t'));
    assert!(matches!(q.pop(&mut c), Some(InternalEvent::RequestFileHistory)));
    press(&mut c, KeyCode::Char('d'));
    assert!(matches!(q.pop(&mut c), Some(InternalEvent::RequestFileDiff)));
}

#[test]
fn page_keys_move_by_twenty() {
    let entries: Vec<StatusEntry> = (0..30).map(|i| file('M', &format!("f{i:02}"))).collect();
    let (mut c, _q) = comp_with(entries);
    press(&mut c, KeyCode::PageDown);
    assert_eq!(c.selection(), 20);
    press(&mut c, KeyCode::PageDown);
    assert_eq!(c.selection(), 29);
    press(&mut c, KeyCode::PageUp);
    assert_eq!(c.selection(), 9);
    press(&mut c, KeyCode::PageUp);
    assert_eq!(c.selection(), 0);
}

#[test]
fn non_key_events_are_not_consumed() {
    let (mut c, _q) = comp_with(vec![file('M', "a")]);
    assert!(!c.event(&Event::Paste("x".to_string())).unwrap().consumed);
    assert!(!c.event(&Event::Other).unwrap().consumed);
}

#[test]
fn toggling_twice_restores_the_commit_set() {
    let (mut c, _q) = comp_with(vec![file('M', "a.txt"), file('M', "b.txt"), file('?', "c.txt")]);
    let first = vec!["a.txt".to_string()];
    c.set_staged(&first);
    let paths = vec!["a.txt".to_string(), "c.txt".to_string()];
    let (added, removed) = c.toggle_stage_paths(&paths);
    assert_eq!(added, vec!["c.txt"]);
    assert_eq!(removed, vec!["a.txt"]);
    assert_eq!(c.staged(), ["c.txt".to_string()]);
    let (added, removed) = c.toggle_stage_paths(&paths);
    assert_eq!(added, vec!["a.txt"]);
    assert_eq!(removed, vec!["c.txt"]);
    assert_eq!(c.staged(), ["a.txt".to_string()]);
}
