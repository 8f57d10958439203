//! Event queue for components to communicate: a FIFO of requests the
//! application drains after each input event.

use vstd::prelude::*;
use std::collections::VecDeque;
use crate::models::LogEntry;

verus! {

/// Which parts of the app need a refresh/redraw (hand-rolled bit flags).
#[derive(Clone, Copy, Debug, PartialEq, Eq)]
pub struct NeedsUpdate(pub u32);

impl NeedsUpdate {
    /// redraw everything
    pub fn all() -> (r: NeedsUpdate)
        ensures
            r.0 == 0b0111,
    {
        NeedsUpdate(0b0111)
    }

    /// status tree / diff may have changed
    pub fn status() -> (r: NeedsUpdate)
        ensures
            r.0 == 0b0010,
    {
        NeedsUpdate(0b0010)
    }

    /// log view may have changed
    pub fn log() -> (r: NeedsUpdate)
        ensures
            r.0 == 0b0100,
    {
        NeedsUpdate(0b0100)
    }

    /// Whether all bits of `other` are set in `self`.
    pub fn contains(self, other: NeedsUpdate) -> (b: bool)
        ensures
            b == (self.0 & other.0 == other.0),
    {
        self.0 & other.0 == other.0
    }

    /// The flags of both (`|`).
    pub fn union(self, other: NeedsUpdate) -> (r: NeedsUpdate)
        ensures
            r.0 == self.0 | other.0,
    {
        NeedsUpdate(self.0 | other.0)
    }
}

impl std::ops::BitOr for NeedsUpdate {
    type Output = NeedsUpdate;

    fn bitor(self, rhs: NeedsUpdate) -> (r: NeedsUpdate) {
        NeedsUpdate(self.0 | rhs.0)
    }
}

impl vstd::std_specs::ops::BitOrSpecImpl for NeedsUpdate {
    open spec fn obeys_bitor_spec() -> bool {
        true
    }

    open spec fn bitor_req(self, rhs: NeedsUpdate) -> bool {
        true
    }

    open spec fn bitor_spec(self, rhs: NeedsUpdate) -> NeedsUpdate {
        NeedsUpdate(self.0 | rhs.0)
    }
}

/// Requests that components push to the app for processing.
#[derive(Clone, Debug, PartialEq, Eq)]
pub enum InternalEvent {
    /// Refresh request with flags
    Update(NeedsUpdate),
    /// Show an info message popup
    ShowInfoMsg(String),
    /// Open the help popup
    OpenHelp,
    /// Close the top popup
    ClosePopup,
    /// Focus the commit input
    OpenCommit,
    /// Ask for confirmation of a pending action
    Confirm(ConfirmAction),
    /// The user confirmed an action (pushed by the confirm popup)
    Confirmed(ConfirmAction),
    /// Switch to a tab
    SwitchTab(Tab),
    /// Refresh status from the working copy
    RefreshStatus,
    /// Run svn add on the given paths
    AddFiles(Vec<String>),
    /// Request a diff of the currently selected file (fullscreen)
    RequestFileDiff,
    /// Request blame of a file
    RequestBlame(String),
    /// Request the history of the currently selected file (status tab)
    RequestFileHistory,
    /// Open the history popup for a specific path (e.g. from file finder)
    OpenFileHistory(String),
    /// Open the fuzzy file finder popup
    OpenFileFinder,
    /// Request a diff of the selected revision (log tab)
    RequestRevisionDiff(u64),
    /// Request a combined diff of several marked revisions (log tab)
    RequestRangeDiff(Vec<u64>),
    /// Open the status filter popup (pre-filled with the current filter)
    OpenStatusFilter,
    /// The status filter query changed (live filtering)
    StatusFilterInput(String),
    /// Load older revisions into the log list (pagination)
    LogLoadMore,
    /// Open the log search popup
    OpenLogSearch,
    /// The log search query changed (filter the loaded commits)
    LogSearchInput(String),
    /// Search the full history for a term
    SearchLog(String),
    /// Show the full info of a commit
    ShowCommitInfo(LogEntry),
    /// Preview the patch file at this path in the diff popup
    PreviewPatch(String),
}

/// An action that needs user confirmation.
#[derive(Clone, Debug, PartialEq, Eq)]
pub enum ConfirmAction {
    /// Commit with message and optional paths
    Commit { message: String, paths: Vec<String> },
    /// Revert the given paths
    Revert(Vec<String>),
    /// Update the working copy
    Update,
    /// Resolve conflict on a path
    Resolve(String),
    /// Update working copy to a revision
    UpdateToRevision(u64),
    /// Apply the patch file at this path to the working copy
    ApplyPatch(String),
    /// Delete the patch file at this path
    DeletePatch(String),
}

/// Which main tab is active.
#[derive(Clone, Copy, Debug, PartialEq, Eq, Structural)]
pub enum Tab {
    Status,
    Log,
    Patches,
}

/// The events of a queue holding `q` after each of `evs` was pushed, one
/// after the other (see [`Queue::push`]).
pub open spec fn pushed_all(q: Seq<InternalEvent>, evs: Seq<InternalEvent>) -> Seq<InternalEvent>
    decreases evs.len(),
{
    if evs.len() == 0 {
        q
    } else {
        pushed_all(q, evs.drop_last()).push(evs.last())
    }
}

/// First in, first out: after any number of pushes the queue holds what it
/// held, then the pushed events in the order they were pushed; so the
/// event taken first is the oldest one.
pub proof fn lemma_fifo(q: Seq<InternalEvent>, evs: Seq<InternalEvent>)
    ensures
        pushed_all(q, evs) == q + evs,
        q.len() + evs.len() > 0 ==> pushed_all(q, evs)[0] == if q.len() > 0 {
            q[0]
        } else {
            evs[0]
        },
    decreases evs.len(),
{
    if evs.len() > 0 {
        lemma_fifo(q, evs.drop_last());
        assert(q + evs =~= (q + evs.drop_last()).push(evs.last()));
    } else {
        assert(q + evs =~= q);
    }
}

/// A FIFO queue of internal events.
pub struct Queue {
    data: VecDeque<InternalEvent>,
}

impl View for Queue {
    type V = Seq<InternalEvent>;

    closed spec fn view(&self) -> Seq<InternalEvent> {
        self.data@
    }
}

impl Queue {
    /// An empty queue.
    pub fn new() -> (q: Queue)
        ensures
            q@ == Seq::<InternalEvent>::empty(),
    {
        Queue { data: VecDeque::new() }
    }

    /// Append `ev` at the back.
    pub fn push(&mut self, ev: InternalEvent)
        ensures
            final(self)@ == old(self)@.push(ev),
    {
        self.data.push_back(ev);
    }

    /// Take the event at the front, if any.
    pub fn pop(&mut self) -> (r: Option<InternalEvent>)
        ensures
            old(self)@.len() == 0 ==> r is None && final(self)@ == old(self)@,
            old(self)@.len() > 0 ==> r == Some(old(self)@[0]) && final(self)@ == old(self)@.drop_first(),
    {
        self.data.pop_front()
    }

    /// Take every queued event, in order, leaving the queue empty.
    pub fn drain(&mut self) -> (v: Vec<InternalEvent>)
        ensures
            v@ == old(self)@,
            final(self)@ == Seq::<InternalEvent>::empty(),
    {
        let mut v: Vec<InternalEvent> = Vec::new();
        let ghost orig = self@;
        loop
            invariant
                v@ + self@ == orig,
                orig == old(self)@,
            decreases self@.len(),
        {
            let ghost s0 = self@;
            let ghost before = v@;
            match self.pop() {
                Some(ev) => {
                    v.push(ev);
                    assert(before.push(ev) + s0.drop_first() =~= before + s0);
                },
                None => {
                    assert(v@ + self@ =~= v@);
                    return v;
                },
            }
        }
    }
}

} // verus!
