//! The Status tab: file tree + diff pane + commit bar, and the pane focus
//! cycled with Tab / Shift+Tab.

use vstd::prelude::*;
use crate::commit::{commit_after, commit_action, CommitAction, CommitComponent, CommitState};
use crate::components::EventState;
use crate::diff_view::{content_lines, opt_text, DiffView};
use crate::keys::{binds, key_match, Event, KeyAction};
use crate::models::StatusEntry;
use crate::status_tree::{
    entry_paths, pane_event, refreshed, requested, selected_entry, selected_path, PaneState,
    StatusTreeComponent,
};
use crate::text::{decimal, push_decimal, push_str};

verus! {

/// Which pane of the status tab has the focus.
#[derive(Clone, Copy, Debug, PartialEq, Eq, Structural)]
pub enum PaneFocus {
    Tree,
    Diff,
    Commit,
}

/// The pane after `f` in the cycle tree → diff → commit → tree
/// (`forward`), or the pane before it.
pub open spec fn spec_next_focus(f: PaneFocus, forward: bool) -> PaneFocus {
    match f {
        PaneFocus::Tree => if forward {
            PaneFocus::Diff
        } else {
            PaneFocus::Commit
        },
        PaneFocus::Diff => if forward {
            PaneFocus::Commit
        } else {
            PaneFocus::Tree
        },
        PaneFocus::Commit => if forward {
            PaneFocus::Tree
        } else {
            PaneFocus::Diff
        },
    }
}

/// The pane the focus moves to from `f` (see [`spec_next_focus`]).
pub fn next_focus(f: PaneFocus, forward: bool) -> (r: PaneFocus)
    ensures
        r == spec_next_focus(f, forward),
{
    match f {
        PaneFocus::Tree => {
            if forward {
                PaneFocus::Diff
            } else {
                PaneFocus::Commit
            }
        },
        PaneFocus::Diff => {
            if forward {
                PaneFocus::Commit
            } else {
                PaneFocus::Tree
            }
        },
        PaneFocus::Commit => {
            if forward {
                PaneFocus::Tree
            } else {
                PaneFocus::Diff
            }
        },
    }
}

/// Cycling the focus one way and then back returns to the same pane, and
/// three steps in one direction visit every pane and come back.
pub proof fn lemma_focus_cycle(f: PaneFocus, forward: bool)
    ensures
        spec_next_focus(spec_next_focus(f, forward), !forward) == f,
        spec_next_focus(spec_next_focus(spec_next_focus(f, forward), forward), forward) == f,
        spec_next_focus(f, forward) != f,
        spec_next_focus(spec_next_focus(f, forward), forward) != f,
{
}

/// The key hints of the status tab.
pub fn hints() -> (r: &'static str)
    ensures
        r@ == "space stage  a add  r revert  c commit  d diff  b blame  t history  / filter  u update  P patch"@,
{
    "space stage  a add  r revert  c commit  d diff  b blame  t history  / filter  u update  P patch"
}

/// The commit bar's hint for `staged` staged paths.
pub open spec fn commit_hint(staged: nat) -> Seq<char> {
    if staged > 0 {
        decimal(staged) + " file(s) staged"@
    } else {
        "no files staged \u{2014} commit all changes"@
    }
}

/// The status tab.
pub struct StatusTab {
    pub tree: StatusTreeComponent,
    pub diff: DiffView,
    pub commit: CommitComponent,
    pub focus: PaneFocus,
    /// The path whose diff was last asked for
    pub last_diff_requested: Option<String>,
}

/// The diff pane with only its focus flag changed.
pub open spec fn diff_refocused(a: DiffView, b: DiffView, focused: bool) -> bool {
    b == DiffView { focused, ..a }
}

/// The tree pane after `ev`: what [`pane_event`] makes of it.
pub open spec fn pane_stepped(a: PaneState, b: PaneState, ev: Event, used: bool) -> bool {
    let (s2, reqs, u) = pane_event(a, ev);
    &&& b == (PaneState { queue: b.queue, ..s2 })
    &&& requested(a.queue, b.queue, reqs)
    &&& used == u
}

/// The diff pane scrolls on `ev` (see `text_view::scroll_key`).
pub open spec fn diff_takes(d: DiffView, ev: Event) -> bool {
    match ev {
        Event::Key(k) => crate::text_view::scroll_key(
            k,
            d.tv.scroll as int,
            d.tv.hscroll as int,
            d.parsed.lines@.len() as int,
        ) is Some,
        _ => false,
    }
}

/// The tab after new status entries arrive (see [`StatusTab::update_status`]).
pub open spec fn status_updated(a: StatusTab, b: StatusTab, entries: Seq<StatusEntry>) -> bool {
    &&& b.tree@ == refreshed(
        PaneState {
            entries: entries,
            staged: a.tree@.staged.intersect(entry_paths(entries).to_set()),
            pending: false,
            ..a.tree@
        },
        selected_path(a.tree@),
    )
    &&& b.last_diff_requested is None
    &&& b.commit@ == (CommitState { hint: commit_hint(b.tree@.staged.len()), ..a.commit@ })
    &&& b.focus == a.focus
    &&& (b.tree@.visible.len() == 0 && selected_entry(b.tree@) is None) ==> (b.diff.empty_reason matches Some(r)
        && r@ == "Working copy is clean"@ && !b.diff.pending)
    &&& !(b.tree@.visible.len() == 0 && selected_entry(b.tree@) is None) ==> b.diff == a.diff
}

/// The tab after a diff of `path` arrives (see [`StatusTab::apply_diff`]).
pub open spec fn diff_applied(a: StatusTab, b: StatusTab, path: Seq<char>, content: Seq<char>) -> bool {
    &&& b.tree@ == a.tree@
    &&& b.commit@ == a.commit@
    &&& b.focus == a.focus
    &&& b.last_diff_requested == a.last_diff_requested
    &&& selected_path(a.tree@) == Some(path) ==> {
        &&& b.diff.title@ == path
        &&& !b.diff.pending
        &&& opt_text(b.diff.empty_reason) == content_lines(content).0
        &&& b.diff.parsed.spec_lines() == content_lines(content).1
    }
    &&& selected_path(a.tree@) != Some(path) ==> b.diff == a.diff
}

/// The tab after the input event `ev` (see [`StatusTab::event`]):
/// `consumed` is whether some pane used it.
pub open spec fn status_stepped(a: StatusTab, b: StatusTab, ev: Event, consumed: bool) -> bool {
    let focus = a.focus;
    let untouched_tree = PaneState { focused: a.tree@.focused, ..b.tree@ };
    &&& focus == PaneFocus::Tree ==> {
        &&& pane_stepped(a.tree@, b.tree@, ev, consumed)
        &&& b.commit@ == a.commit@
        &&& b.diff == a.diff
        &&& b.focus == focus
    }
    &&& focus == PaneFocus::Diff ==> {
        &&& diff_takes(a.diff, ev) ==> consumed && b.tree@ == a.tree@
        &&& !diff_takes(a.diff, ev) ==> pane_stepped(
            a.tree@,
            b.tree@,
            ev,
            consumed,
        ) && b.diff.tv.scroll == a.diff.tv.scroll
            && b.diff.tv.hscroll == a.diff.tv.hscroll
        &&& b.diff.parsed == a.diff.parsed
        &&& b.diff.title == a.diff.title
        &&& b.commit@ == a.commit@
        &&& b.focus == focus
    }
    &&& focus == PaneFocus::Commit ==> {
        let used = !(commit_action(a.commit@, ev) is Ignore);
        &&& commit_after(a.commit@, b.commit@, ev)
        &&& used ==> consumed && untouched_tree == a.tree@
        &&& !used ==> pane_stepped(a.tree@, untouched_tree, ev, consumed)
        &&& b.focus == (if b.commit@.focused {
            PaneFocus::Commit
        } else {
            PaneFocus::Tree
        })
        &&& b.tree@.focused == (b.focus == PaneFocus::Tree)
    }

}

/// The tab after the app-wide key `ev` (see [`StatusTab::handle_global_key`]):
/// `taken` is whether it cycled the focus.
pub open spec fn global_keyed(a: StatusTab, t: StatusTab, ev: Event, taken: bool) -> bool {
    &&& taken == (ev matches Event::Key(k) && (binds(k, KeyAction::FocusNext) || binds(k, KeyAction::FocusPrev)))
    &&& taken ==> (ev matches Event::Key(k) && t.focus == spec_next_focus(a.focus, binds(k, KeyAction::FocusNext)))
    &&& taken ==> t.tree@ == (PaneState { focused: t.focus == PaneFocus::Tree, ..a.tree@ })
        && t.commit@ == (CommitState { focused: t.focus == PaneFocus::Commit, ..a.commit@ })
        && diff_refocused(a.diff, t.diff, t.focus == PaneFocus::Diff)
    &&& !taken ==> t.tree@ == a.tree@ && t.commit@ == a.commit@ && t.diff == a.diff && t.focus == a.focus
    &&& t.last_diff_requested == a.last_diff_requested
}

impl StatusTab {
    /// All panes are consistent, and the tree's focus flag follows the
    /// tab's focus.
    pub open spec fn wf(&self) -> bool {
        &&& self.tree.wf()
        &&& self.commit.wf()
        &&& self.tree@.focused == (self.focus == PaneFocus::Tree)
    }

    pub fn new() -> (t: StatusTab)
        ensures
            t.wf(),
            t.focus == PaneFocus::Tree,
            t.last_diff_requested is None,
            t.tree@.visible.len() == 0 && t.tree@.staged.len() == 0 && t.tree@.focused,
            t.commit@.lines == seq![Seq::<char>::empty()] && !t.commit@.focused,
            t.diff.empty_reason matches Some(r) && r@ == "Select a file to view its diff"@,
            t.diff.title@ == "Diff"@,
    {
        let mut diff = DiffView::new("Diff");
        diff.set_hint("Diff".to_owned(), "Select a file to view its diff".to_owned());
        StatusTab {
            tree: StatusTreeComponent::new(),
            diff,
            commit: CommitComponent::new(),
            focus: PaneFocus::Tree,
            last_diff_requested: None,
        }
    }

    /// Focus `focus`; each pane's own flag follows.
    pub fn set_focus(&mut self, focus: PaneFocus)
        requires
            old(self).wf(),
        ensures
            final(self).wf(),
            final(self).focus == focus,
            final(self).tree@ == (PaneState { focused: focus == PaneFocus::Tree, ..old(self).tree@ }),
            diff_refocused(old(self).diff, final(self).diff, focus == PaneFocus::Diff),
            final(self).commit@ == (CommitState { focused: focus == PaneFocus::Commit, ..old(self).commit@ }),
            final(self).last_diff_requested == old(self).last_diff_requested,
    {
        self.focus = focus;
        self.tree.set_focused(focus == PaneFocus::Tree);
        self.diff.focused = focus == PaneFocus::Diff;
        self.commit.set_focused(focus == PaneFocus::Commit);
    }

    /// Move the focus to the next pane (`forward`) or the previous one.
    pub fn cycle_focus(&mut self, forward: bool)
        requires
            old(self).wf(),
        ensures
            final(self).wf(),
            final(self).focus == spec_next_focus(old(self).focus, forward),
            final(self).tree@ == (PaneState { focused: final(self).focus == PaneFocus::Tree, ..old(self).tree@ }),
            diff_refocused(old(self).diff, final(self).diff, final(self).focus == PaneFocus::Diff),
            final(self).commit@ == (CommitState { focused: final(self).focus == PaneFocus::Commit, ..old(self).commit@ }),
            final(self).last_diff_requested == old(self).last_diff_requested,
    {
        let next = next_focus(self.focus, forward);
        self.set_focus(next);
    }

    /// Set the commit bar's hint from the number of staged paths.
    pub fn update_commit_hint(&mut self)
        requires
            old(self).wf(),
        ensures
            final(self).wf(),
            final(self).commit@ == (CommitState { hint: commit_hint(old(self).tree@.staged.len()), ..old(self).commit@ }),
            final(self).tree@ == old(self).tree@,
            final(self).diff == old(self).diff,
            final(self).focus == old(self).focus,
            final(self).last_diff_requested == old(self).last_diff_requested,
    {
        let staged = self.tree.staged_count();
        let mut hint = String::new();
        if staged > 0 {
            push_decimal(&mut hint, staged as u64);
            push_str(&mut hint, " file(s) staged");
            proof {
                reveal_strlit(" file(s) staged");
            }
        } else {
            push_str(&mut hint, "no files staged \u{2014} commit all changes");
        }
        self.commit.set_hint(hint);
    }

    /// Show new status entries: the tree reloads, the next diff request is
    /// forced, the commit hint follows; a clean working copy says so in
    /// the diff pane.
    pub fn update_status(&mut self, entries: Vec<StatusEntry>)
        requires
            old(self).wf(),
        ensures
            final(self).wf(),
            status_updated(*old(self), *final(self), entries@),
    {
        self.tree.update(entries);
        self.last_diff_requested = None;
        self.update_commit_hint();
        if self.tree.is_empty() && self.tree.selection_entry().is_none() {
            self.diff.set_hint("Diff".to_owned(), "Working copy is clean".to_owned());
        }
    }

    /// Show a loaded diff, if it is for the selected path (a stale one for
    /// another path is dropped).
    pub fn apply_diff(&mut self, path: &str, content: &str)
        requires
            old(self).wf(),
        ensures
            final(self).wf(),
            diff_applied(*old(self), *final(self), path@, content@),
    {
        match self.tree.selection_path() {
            Some(sel) => {
                if crate::text::same_text(sel.as_str(), path) {
                    self.diff.set_content(path.to_owned(), content);
                }
            },
            None => {},
        }
    }

    /// Ask for the diff of the selected file, unless it was just asked
    /// for: returns the path to load. On a directory row the diff pane says
    /// why there is nothing to show, and nothing is asked.
    pub fn maybe_request_diff(&mut self) -> (r: Option<String>)
        requires
            old(self).wf(),
        ensures
            final(self).wf(),
            final(self).tree@ == old(self).tree@,
            final(self).commit@ == old(self).commit@,
            final(self).focus == old(self).focus,
            ({
                let sel = selected_path(old(self).tree@);
                let last = opt_text(old(self).last_diff_requested);
                if selected_entry(old(self).tree@) is None {
                    &&& r is None
                    &&& opt_text(final(self).last_diff_requested) == sel
                    &&& sel is None ==> final(self).diff == old(self).diff
                    &&& sel matches Some(p) ==> final(self).diff.empty_reason matches Some(why) && why@ == (
                        if old(self).tree@.visible.len() == 0 {
                            "Working copy is clean"@
                        } else {
                            p + " is a directory \u{2014} select a file"@
                        })
                } else if last == sel {
                    &&& r is None
                    &&& final(self).diff == old(self).diff
                    &&& final(self).last_diff_requested == old(self).last_diff_requested
                } else {
                    &&& r matches Some(p) && Some(p@) == sel
                    &&& opt_text(final(self).last_diff_requested) == sel
                    &&& final(self).diff.pending && final(self).diff.empty_reason is None
                    &&& Some(final(self).diff.title@) == sel
                }
            }),
    {
        let sel = self.tree.selection_path();
        let is_file = self.tree.selection_entry().is_some();
        if !is_file {
            match &sel {
                Some(path) => {
                    let reason = if self.tree.is_empty() {
                        "Working copy is clean".to_owned()
                    } else {
                        let mut why = path.clone();
                        push_str(&mut why, " is a directory \u{2014} select a file");
                        why
                    };
                    self.diff.set_hint("Diff".to_owned(), reason);
                },
                None => {},
            }
            self.last_diff_requested = sel;
            return None;
        }
        let path = match sel {
            Some(p) => p,
            None => {
                return None;
            },
        };
        let same = match &self.last_diff_requested {
            Some(last) => crate::text::same_text(last.as_str(), path.as_str()),
            None => false,
        };
        if same {
            return None;
        }
        self.last_diff_requested = Some(path.clone());
        self.diff.set_loading(path.clone());
        Some(path)
    }

    /// Stage `paths`; the commit hint follows.
    pub fn set_staged(&mut self, paths: &[String])
        requires
            old(self).wf(),
        ensures
            final(self).wf(),
            final(self).tree@ == (PaneState {
                staged: old(self).tree@.staged.union(crate::text::texts(paths@).to_set()),
                ..old(self).tree@
            }),
            final(self).commit@ == (CommitState { hint: commit_hint(final(self).tree@.staged.len()), ..old(self).commit@ }),
            final(self).diff == old(self).diff,
            final(self).focus == old(self).focus,
            final(self).last_diff_requested == old(self).last_diff_requested,
    {
        self.tree.set_staged(paths);
        self.update_commit_hint();
    }

    /// Unstage `paths`; the commit hint follows.
    pub fn unset_staged(&mut self, paths: &[String])
        requires
            old(self).wf(),
        ensures
            final(self).wf(),
            final(self).tree@ == (PaneState {
                staged: old(self).tree@.staged.difference(crate::text::texts(paths@).to_set()),
                ..old(self).tree@
            }),
            final(self).commit@ == (CommitState { hint: commit_hint(final(self).tree@.staged.len()), ..old(self).commit@ }),
            final(self).diff == old(self).diff,
            final(self).focus == old(self).focus,
            final(self).last_diff_requested == old(self).last_diff_requested,
    {
        self.tree.unset_staged(paths);
        self.update_commit_hint();
    }

    /// Unstage everything; the commit hint follows.
    pub fn clear_staged(&mut self)
        requires
            old(self).wf(),
        ensures
            final(self).wf(),
            final(self).tree@ == (PaneState { staged: Set::empty(), ..old(self).tree@ }),
            final(self).commit@ == (CommitState { hint: commit_hint(0), ..old(self).commit@ }),
            final(self).diff == old(self).diff,
            final(self).focus == old(self).focus,
            final(self).last_diff_requested == old(self).last_diff_requested,
    {
        self.tree.clear_staged();
        self.update_commit_hint();
    }

    /// Tab / Shift+Tab cycle the pane focus; other keys are left alone.
    pub fn handle_global_key(&mut self, ev: &Event) -> (b: bool)
        requires
            old(self).wf(),
        ensures
            final(self).wf(),
            global_keyed(*old(self), *final(self), *ev, b),
    {
        let k = match ev {
            Event::Key(k) => k,
            _ => {
                return false;
            },
        };
        if key_match(k, KeyAction::FocusNext) || key_match(k, KeyAction::FocusPrev) {
            let forward = key_match(k, KeyAction::FocusNext);
            self.cycle_focus(forward);
            return true;
        }
        false
    }

    /// Handle an input event: the focused pane first; keys the diff pane
    /// or the commit bar leave go to the tree. When the commit bar lets go
    /// of the focus (Esc), the tree gets it back.
    pub fn event(&mut self, ev: &Event) -> (r: Result<EventState, String>)
        requires
            old(self).wf(),
            old(self).commit@.cursor.1 + 1 < usize::MAX,
            ev matches Event::Paste(t) ==> old(self).commit@.cursor.1 + t@.len() <= usize::MAX
                && old(self).commit@.lines.len() + t@.len() <= usize::MAX,
        ensures
            final(self).wf(),
            r matches Ok(st) && status_stepped(*old(self), *final(self), *ev, st.consumed),
    {
        let consumed = match self.focus {
            PaneFocus::Tree => {
                match self.tree.event(ev) {
                    Ok(st) => st.consumed,
                    Err(_) => false,
                }
            },
            PaneFocus::Diff => {
                if self.diff.event(ev).consumed {
                    true
                } else {
                    match self.tree.event(ev) {
                        Ok(st) => st.consumed,
                        Err(_) => false,
                    }
                }
            },
            PaneFocus::Commit => {
                let c = match self.commit.event(ev) {
                    Ok(c) => c.consumed,
                    Err(_) => false,
                };
                if c {
                    true
                } else {
                    match self.tree.event(ev) {
                        Ok(st) => st.consumed,
                        Err(_) => false,
                    }
                }
            },
        };
        if self.focus == PaneFocus::Commit && !self.commit.focused() {
            self.set_focus(PaneFocus::Tree);
        }
        Ok(EventState { consumed })
    }
}

} // verus!
