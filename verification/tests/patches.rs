use std::cmp::Ordering;
use svnui::keys::{Event, KeyCode, KeyEvent};
use svnui::patches::{
    format_time, fresh_patch_path, newer_first, patch_file_name, sort_newest_first, utc_ymd_hms,
    PatchFile, PatchesComponent, Timestamp,
};
use svnui::queue::{ConfirmAction, InternalEvent, Tab};
use svnui::ui::scroll_follow;

fn key(code: KeyCode) -> Event {
    Event::Key(KeyEvent::plain(code))
}

fn names(c: &PatchesComponent) -> Vec<String> {
    c.entries().iter().map(|e| e.name.clone()).collect()
}

fn at(secs: i64) -> Timestamp {
    Timestamp { secs, nanos: 0 }
}

fn patch(name: &str, size: u64, modified_secs: i64) -> PatchFile {
    PatchFile { name: name.to_string(), path: name.to_string(), size, modified: Some(at(modified_secs)) }
}

#[test]
fn newer_first_sorts_mtime_desc_then_name_desc() {
    let new = patch("new.patch", 5, 200);
    let mid = patch("mid.patch", 1, 150);
    let old = patch("old.patch", 3, 100);
    // different mtimes: newest first, regardless of name
    assert_eq!(newer_first(&new, &mid), Ordering::Less);
    assert_eq!(newer_first(&old, &mid), Ordering::Greater);
    assert_eq!(newer_first(&old, &new), Ordering::Greater);
    // equal mtime: name descending breaks the tie
    let a = patch("a.patch", 1, 100);
    let b = patch("b.patch", 1, 100);
    assert_eq!(newer_first(&a, &b), Ordering::Greater);
    assert_eq!(newer_first(&b, &a), Ordering::Less);
    // identical entries are equal
    assert_eq!(newer_first(&a, &patch("a.patch", 1, 100)), Ordering::Equal);
    // mtime dominates the name tiebreak
    assert_eq!(newer_first(&b, &new), Ordering::Greater);
    // entries without a timestamp sort last
    let mut unknown = patch("z.patch", 1, 100);
    unknown.modified = None;
    assert_eq!(newer_first(&unknown, &old), Ordering::Greater);
}

#[test]
fn sorting_with_newer_first_lists_newest_first() {
    let mut v = vec![
        patch("a.patch", 1, 200),
        patch("b.patch", 2, 300),
        patch("c.patch", 3, 100),
        patch("d.patch", 3, 300),
    ];
    v.sort_by(newer_first);
    let names: Vec<&str> = v.iter().map(|p| p.name.as_str()).collect();
    assert_eq!(names, vec!["d.patch", "b.patch", "a.patch", "c.patch"]);
    // sub-second precision counts before the name
    let x = PatchFile { modified: Some(Timestamp { secs: 300, nanos: 5 }), ..patch("a.patch", 0, 0) };
    let y = patch("z.patch", 0, 300);
    assert_eq!(newer_first(&x, &y), Ordering::Less);
}

#[test]
fn naming_and_time_helpers() {
    // 2026-01-02 03:04:05 UTC = 1767323045
    assert_eq!(patch_file_name(at(1_767_323_045)), "patch-20260102-030405.patch");
    // pre-epoch times clamp to the epoch instead of failing
    assert_eq!(patch_file_name(at(-5)), "patch-19700101-000000.patch");
    assert_eq!(patch_file_name(at(0)), "patch-19700101-000000.patch");
    assert_eq!(format_time(None), "?");
    assert_eq!(format_time(Some(at(1_700_000_000))), "2023-11-14 22:13");
    assert_eq!(format_time(Some(at(1_600_000_000))), "2020-09-13 12:26");
}

#[test]
fn fresh_patch_path_skips_taken_names() {
    let epoch = at(0);
    let mut taken: Vec<String> = Vec::new();
    let p1 = fresh_patch_path(&taken, epoch);
    assert_eq!(p1, "patch-19700101-000000.patch");
    taken.push(p1);
    let p2 = fresh_patch_path(&taken, epoch);
    assert_eq!(p2, "patch-19700101-000000-2.patch");
    taken.push(p2);
    let p3 = fresh_patch_path(&taken, epoch);
    assert_eq!(p3, "patch-19700101-000000-3.patch");
    // unrelated names do not matter
    let other = vec!["notes.txt".to_string()];
    assert_eq!(fresh_patch_path(&other, epoch), "patch-19700101-000000.patch");
}

#[test]
fn utc_fields_cover_leap_days_and_far_future() {
    // 2000-02-29 12:00:00 UTC
    assert_eq!(utc_ymd_hms(at(951_825_600)), (2000, 2, 29, 12, 0, 0));
    // 2024-12-31 23:59:59 UTC
    assert_eq!(utc_ymd_hms(at(1_735_689_599)), (2024, 12, 31, 23, 59, 59));
    // 2100-03-01 00:00:00 UTC (2100 is no leap year)
    assert_eq!(utc_ymd_hms(at(4_107_542_400)), (2100, 3, 1, 0, 0, 0));
    assert_eq!(utc_ymd_hms(at(i64::MAX)).0, 292_277_026_596);
}

#[test]
fn refresh_lists_newest_first() {
    // b newest, then a, then c
    let listing = vec![patch("a.patch", 1, 200), patch("b.patch", 2, 300), patch("c.patch", 3, 100)];
    let mut comp = PatchesComponent::with_dir("/tmp/patches".into(), listing);
    assert_eq!(names(&comp), vec!["b.patch", "a.patch", "c.patch"]);
    // same mtime: the name-descending tiebreak decides
    comp.refresh(vec![patch("a.patch", 1, 200), patch("b.patch", 2, 300), patch("c.patch", 3, 300)]);
    assert_eq!(names(&comp), vec!["c.patch", "b.patch", "a.patch"]);
    // refresh drops deleted files and clamps the selection
    comp.event(&key(KeyCode::End)).unwrap();
    assert_eq!(comp.selection(), 2);
    comp.refresh(vec![patch("a.patch", 1, 200), patch("c.patch", 3, 300)]);
    assert_eq!(names(&comp), vec!["c.patch", "a.patch"]);
    assert_eq!(comp.selection(), 1);
    assert_eq!(comp.selection_entry().unwrap().name, "a.patch");
}

#[test]
fn keys_push_events() {
    let mut comp = PatchesComponent::with_dir("/tmp/p".into(), vec![patch("a.patch", 1, 100), patch("b.patch", 2, 100)]);
    assert_eq!(comp.entries().len(), 2);

    // navigation (same mtime; order by name desc)
    let first = comp.selection_entry().unwrap().name.clone();
    comp.event(&key(KeyCode::Char('j'))).unwrap();
    let second = comp.selection_entry().unwrap().name.clone();
    assert_ne!(first, second);
    comp.event(&key(KeyCode::Char('k'))).unwrap();
    comp.event(&key(KeyCode::End)).unwrap();
    comp.event(&key(KeyCode::Home)).unwrap();
    comp.event(&key(KeyCode::PageDown)).unwrap();
    comp.event(&key(KeyCode::PageUp)).unwrap();

    // preview via Enter and 'p'
    comp.event(&key(KeyCode::Enter)).unwrap();
    assert!(matches!(comp.take_events().first(), Some(InternalEvent::PreviewPatch(_))));
    comp.event(&key(KeyCode::Char('p'))).unwrap();
    assert!(matches!(comp.take_events().first(), Some(InternalEvent::PreviewPatch(_))));

    // apply / delete ask for confirmation
    comp.event(&key(KeyCode::Char('a'))).unwrap();
    assert!(matches!(comp.take_events().first(), Some(InternalEvent::Confirm(ConfirmAction::ApplyPatch(_)))));
    comp.event(&key(KeyCode::Char('d'))).unwrap();
    assert!(matches!(comp.take_events().first(), Some(InternalEvent::Confirm(ConfirmAction::DeletePatch(_)))));

    // refresh asks for a new listing (no queue event), help and tab switches queue
    comp.event(&key(KeyCode::F(5))).unwrap();
    assert!(comp.take_reload());
    comp.event(&key(KeyCode::Char('R'))).unwrap();
    assert!(comp.take_reload());
    assert!(comp.take_events().is_empty());
    comp.event(&key(KeyCode::Char('?'))).unwrap();
    assert!(matches!(comp.take_events().first(), Some(InternalEvent::OpenHelp)));
    comp.event(&key(KeyCode::Char('1'))).unwrap();
    assert!(matches!(comp.take_events().first(), Some(InternalEvent::SwitchTab(Tab::Status))));
    comp.event(&key(KeyCode::Char('2'))).unwrap();
    assert!(matches!(comp.take_events().first(), Some(InternalEvent::SwitchTab(Tab::Log))));
    comp.event(&key(KeyCode::Esc)).unwrap();
    assert!(matches!(comp.take_events().first(), Some(InternalEvent::SwitchTab(Tab::Status))));
    // already here, consumed
    assert!(comp.event(&key(KeyCode::Char('3'))).unwrap().consumed);
    // q is not consumed so the app can quit
    assert!(!comp.event(&key(KeyCode::Char('q'))).unwrap().consumed);
}

#[test]
fn empty_dir_shows_hint_and_keys_are_noops() {
    let mut comp = PatchesComponent::with_dir("/tmp/empty".into(), Vec::new());
    assert!(comp.entries().is_empty());
    // actions on an empty list push nothing
    comp.event(&key(KeyCode::Enter)).unwrap();
    comp.event(&key(KeyCode::Char('a'))).unwrap();
    comp.event(&key(KeyCode::Char('d'))).unwrap();
    comp.event(&key(KeyCode::Char('j'))).unwrap();
    assert!(comp.take_events().is_empty());
    assert!(comp.selection_entry().is_none());
}

#[test]
fn scroll_window_follows_selection() {
    let listing: Vec<PatchFile> = (0..30).map(|i| patch(&format!("p{i:02}.patch"), 1, 100 + i as i64)).collect();
    let mut comp = PatchesComponent::with_dir("/tmp/s".into(), listing);
    // newest first: p29 at the top
    assert_eq!(comp.entries()[0].name, "p29.patch");
    // a window of 4 rows: jumping to the end scrolls so the selection stays visible
    comp.event(&key(KeyCode::End)).unwrap();
    assert_eq!(comp.selection(), 29);
    let scroll = scroll_follow(comp.selection(), comp.scroll(), comp.entries().len(), 4);
    assert_eq!(scroll, 26);
    comp.set_scroll(scroll);
    // moving back up scrolls the window up again
    comp.event(&key(KeyCode::Home)).unwrap();
    assert_eq!(scroll_follow(comp.selection(), comp.scroll(), comp.entries().len(), 4), 0);
}

#[test]
fn sort_newest_first_orders_by_time_then_name() {
    let mut unknown = patch("z.patch", 1, 0);
    unknown.modified = None;
    let r = sort_newest_first(vec![unknown, patch("a.patch", 1, 100), patch("b.patch", 1, 100), patch("c.patch", 1, 50)]);
    let n: Vec<&str> = r.iter().map(|e| e.name.as_str()).collect();
    assert_eq!(n, vec!["b.patch", "a.patch", "c.patch", "z.patch"]);
}
