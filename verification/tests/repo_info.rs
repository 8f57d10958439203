use svnui::models::{StatusEntry, SvnInfo};
use svnui::repo_info::repo_info_lines;
use svnui::spans::{InfoSpan, Role};
use svnui::status_tree::StatusTreeComponent;

fn test_info() -> SvnInfo {
    SvnInfo {
        url: "file:///repo/trunk".into(),
        branch: "trunk".into(),
        revision: 3,
        wc_root: "/home/user/wc".into(),
        repo_root: "file:///repo".into(),
        uuid: "12345678-1234-1234-1234-123456789012".into(),
        last_author: "alice".into(),
        last_rev: 3,
        last_date: "2026-01-01 10:00:00 +0000".into(),
    }
}

fn entry(status: char, path: &str) -> StatusEntry {
    StatusEntry { status, props_status: ' ', tree_conflict: ' ', path: path.to_string(), is_dir: false }
}

fn bare_tree() -> StatusTreeComponent {
    StatusTreeComponent::new()
}

fn lines_text(lines: &[Vec<InfoSpan>]) -> String {
    lines
        .iter()
        .map(|l| l.iter().map(|s| s.text.as_str()).collect::<String>())
        .collect::<Vec<_>>()
        .join("\n")
}

#[test]
fn repo_info_lines_clean_and_up_to_date() {
    let tree = bare_tree();
    // head not newer than the local revision → "(up to date)"
    let mut head = test_info();
    head.revision = 3;
    let text = lines_text(&repo_info_lines(&test_info(), Some(&head), &tree.changed_files(), tree.staged_count()));
    assert!(text.contains("HEAD:          r3"), "{text}");
    assert!(text.contains("(up to date)"), "{text}");
    assert!(!text.contains("revisions behind"), "{text}");
    // no changed files → the summary line says "clean"
    assert!(text.contains("clean"), "{text}");
    assert!(!text.contains("Staged for commit"), "{text}");
}

#[test]
fn repo_info_lines_unknown_statuses_counted_as_other() {
    let mut tree = bare_tree();
    // status chars without a label ('I' ignored, '~' obstructed)
    tree.update(vec![entry('I', "ignored.o"), entry('~', "blocked.txt")]);
    let text = lines_text(&repo_info_lines(&test_info(), Some(&test_info()), &tree.changed_files(), tree.staged_count()));
    assert!(text.contains("2 other"), "{text}");
    // no labeled breakdown for unknown statuses
    assert!(!text.contains("modified"), "{text}");
}

#[test]
fn repo_info_lines_omit_last_changed_when_rev_zero() {
    let tree = bare_tree();
    // an uncommitted / fresh node has no last-changed triple
    let mut local = test_info();
    local.last_rev = 0;
    local.last_author = String::new();
    local.last_date = String::new();
    let text = lines_text(&repo_info_lines(&local, Some(&test_info()), &tree.changed_files(), tree.staged_count()));
    assert!(!text.contains("Last changed:"), "{text}");
    // the head's own last-commit line is independent and still shown
    assert!(text.contains("Last commit:"), "{text}");
}

#[test]
fn repo_info_behind_head_unreachable_and_summary() {
    let mut head = test_info();
    head.revision = 10;
    let files = vec![
        ('M', "a".to_string()),
        ('?', "b".to_string()),
        ('M', "c".to_string()),
        ('X', "d".to_string()),
    ];
    let lines = repo_info_lines(&test_info(), Some(&head), &files, 2);
    let text = lines_text(&lines);
    assert!(text.contains("  (working copy is 7 revisions behind)"), "{text}");
    assert!(text.contains("  2 modified, 1 unversioned, 1 other"), "{text}");
    assert!(text.contains("  Staged for commit: 2"), "{text}");
    let last = lines.last().unwrap();
    assert_eq!(last[1].role, Role::Staged);
    // the whole first section, line by line
    let first: Vec<String> = lines[..6].iter().map(|l| l.iter().map(|s| s.text.as_str()).collect()).collect();
    assert_eq!(
        first,
        vec![
            "Working copy",
            "  Path:          /home/user/wc",
            "  URL:           file:///repo/trunk",
            "  Branch:        trunk",
            "  Revision:      r3",
            "  Last changed:  r3 by alice (2026-01-01 10:00:00 +0000)",
        ]
    );
    let none = lines_text(&repo_info_lines(&test_info(), None, &[], 0));
    assert!(none.contains("  HEAD:          unknown (repository unreachable)"), "{none}");
}
