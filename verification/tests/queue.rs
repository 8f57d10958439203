use svnui::queue::{InternalEvent, NeedsUpdate, Queue};

#[test]
fn fifo_order() {
    let mut q = Queue::new();
    q.push(InternalEvent::OpenHelp);
    q.push(InternalEvent::RefreshStatus);
    assert_eq!(q.pop(), Some(InternalEvent::OpenHelp));
    assert_eq!(q.pop(), Some(InternalEvent::RefreshStatus));
    assert_eq!(q.pop(), None);
}

#[test]
fn drain_returns_all_and_clears() {
    let mut q = Queue::new();
    q.push(InternalEvent::ClosePopup);
    q.push(InternalEvent::ClosePopup);
    let drained = q.drain();
    assert_eq!(drained.len(), 2);
    assert_eq!(q.pop(), None);
}

#[test]
fn needs_update_flags() {
    let all = NeedsUpdate::all();
    assert!(all.contains(NeedsUpdate::status()));
    assert!(all.contains(NeedsUpdate::log()));
    let s = NeedsUpdate::status();
    assert!(!s.contains(NeedsUpdate::log()));
    assert_eq!(s | NeedsUpdate::log(), NeedsUpdate::status() | NeedsUpdate::log());
}

#[test]
fn drain_keeps_push_order() {
    let mut q = Queue::new();
    q.push(InternalEvent::RequestRevisionDiff(7));
    q.push(InternalEvent::OpenHelp);
    q.push(InternalEvent::RequestRangeDiff(vec![3, 2]));
    let drained = q.drain();
    assert_eq!(
        drained,
        vec![
            InternalEvent::RequestRevisionDiff(7),
            InternalEvent::OpenHelp,
            InternalEvent::RequestRangeDiff(vec![3, 2]),
        ]
    );
    assert!(q.drain().is_empty());
}

#[test]
fn union_sets_both_flags() {
    let u = NeedsUpdate::status().union(NeedsUpdate::log());
    assert_eq!(u, NeedsUpdate(0b0110));
    assert!(u.contains(NeedsUpdate::status()));
    assert!(u.contains(NeedsUpdate::log()));
    assert!(!u.contains(NeedsUpdate::all()));
}
