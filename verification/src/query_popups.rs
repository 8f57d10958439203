//! The two input-only popups: the status file filter and the commit
//! search. Their results appear behind them (in the file tree, in the
//! log list): typing queues the query live for the app.

use vstd::prelude::*;
use crate::components::EventState;
use crate::keys::{Event, KeyCode};
use crate::queue::{InternalEvent, Queue};
use crate::text::{pop_char, push_char, push_str};

verus! {

/// A request an input popup queues, by value.
pub enum QueryRequest {
    /// The status filter text changed to this
    FilterInput(Seq<char>),
    /// The commit search text changed to this
    SearchInput(Seq<char>),
    /// Search the full history for this
    SearchLog(Seq<char>),
    /// Close the popup
    Close,
}

/// The queued event `ev` is the request `r`.
pub open spec fn is_query_request(ev: InternalEvent, r: QueryRequest) -> bool {
    match r {
        QueryRequest::FilterInput(q) => ev matches InternalEvent::StatusFilterInput(s) && s@ == q,
        QueryRequest::SearchInput(q) => ev matches InternalEvent::LogSearchInput(s) && s@ == q,
        QueryRequest::SearchLog(q) => ev matches InternalEvent::SearchLog(s) && s@ == q,
        QueryRequest::Close => ev is ClosePopup,
    }
}

/// `new_q` is `old_q` followed by the requests `reqs`, in order.
pub open spec fn query_requested(old_q: Seq<InternalEvent>, new_q: Seq<InternalEvent>, reqs: Seq<QueryRequest>) -> bool {
    &&& new_q.len() == old_q.len() + reqs.len()
    &&& new_q.take(old_q.len() as int) == old_q
    &&& forall|i: int| 0 <= i < reqs.len() ==> is_query_request(#[trigger] new_q[old_q.len() + i], reqs[i])
}

/// How an input event edits the query `q`: the new query, or `None` when
/// the event does not edit it (a paste appends, Backspace drops the last
/// char, a char typed without Control or Alt is appended).
pub open spec fn edited(q: Seq<char>, ev: Event) -> Option<Seq<char>> {
    match ev {
        Event::Paste(t) => Some(q + t@),
        Event::Key(k) => match k.code {
            KeyCode::Backspace => Some(
                if q.len() == 0 {
                    q
                } else {
                    q.drop_last()
                },
            ),
            KeyCode::Char(c) => if !k.ctrl && !k.alt {
                Some(q.push(c))
            } else {
                None
            },
            _ => None,
        },
        _ => None,
    }
}

/// What the status filter popup does with `ev`: the new query, the
/// requests queued and whether the event was used. Typing filters live,
/// Enter keeps the filter, Esc restores the text the popup was opened
/// with (`initial`).
pub open spec fn filter_step(q: Seq<char>, initial: Seq<char>, ev: Event) -> (Seq<char>, Seq<QueryRequest>, bool) {
    match ev {
        Event::Key(k) => if k.code == KeyCode::Esc {
            (q, seq![QueryRequest::FilterInput(initial), QueryRequest::Close], true)
        } else if k.code == KeyCode::Enter {
            (q, seq![QueryRequest::Close], true)
        } else {
            match edited(q, ev) {
                Some(n) => (n, seq![QueryRequest::FilterInput(n)], true),
                None => (q, Seq::empty(), false),
            }
        },
        _ => match edited(q, ev) {
            Some(n) => (n, seq![QueryRequest::FilterInput(n)], true),
            None => (q, Seq::empty(), false),
        },
    }
}

/// What the commit search popup does with `ev`: typing filters the loaded
/// commits live, Enter searches the full history (when there is a query)
/// and closes, Esc closes.
pub open spec fn search_popup_step(q: Seq<char>, ev: Event) -> (Seq<char>, Seq<QueryRequest>, bool) {
    match ev {
        Event::Key(k) => if k.code == KeyCode::Esc {
            (q, seq![QueryRequest::Close], true)
        } else if k.code == KeyCode::Enter {
            (
                q,
                if q.len() > 0 {
                    seq![QueryRequest::SearchLog(q), QueryRequest::Close]
                } else {
                    seq![QueryRequest::Close]
                },
                true,
            )
        } else {
            match edited(q, ev) {
                Some(n) => (n, seq![QueryRequest::SearchInput(n)], true),
                None => (q, Seq::empty(), false),
            }
        },
        _ => match edited(q, ev) {
            Some(n) => (n, seq![QueryRequest::SearchInput(n)], true),
            None => (q, Seq::empty(), false),
        },
    }
}

proof fn lemma_query_one(q: Seq<InternalEvent>, ev: InternalEvent, r: QueryRequest)
    requires
        is_query_request(ev, r),
    ensures
        query_requested(q, q.push(ev), seq![r]),
{
    assert(q.push(ev).take(q.len() as int) =~= q);
    assert(q.push(ev)[q.len() as int] == ev);
}

proof fn lemma_query_two(q: Seq<InternalEvent>, e1: InternalEvent, r1: QueryRequest, e2: InternalEvent, r2: QueryRequest)
    requires
        is_query_request(e1, r1),
        is_query_request(e2, r2),
    ensures
        query_requested(q, q.push(e1).push(e2), seq![r1, r2]),
{
    assert(q.push(e1).push(e2).take(q.len() as int) =~= q);
    assert(q.push(e1).push(e2)[q.len() as int] == e1);
    assert(q.push(e1).push(e2)[q.len() + 1int] == e2);
}

proof fn lemma_query_none(q: Seq<InternalEvent>)
    ensures
        query_requested(q, q, Seq::empty()),
{
    assert(q.take(q.len() as int) =~= q);
}

/// Apply the edit `ev` to `query`, if it is one (see [`edited`]).
pub(crate) fn edit(query: &mut String, ev: &Event) -> (changed: bool)
    ensures
        changed == (edited(old(query)@, *ev) is Some),
        changed ==> edited(old(query)@, *ev) == Some(final(query)@),
        !changed ==> final(query)@ == old(query)@,
{
    match ev {
        Event::Paste(t) => {
            push_str(query, t.as_str());
            true
        },
        Event::Key(k) => match k.code {
            KeyCode::Backspace => {
                let _ = pop_char(query);
                true
            },
            KeyCode::Char(c) => {
                if !k.ctrl && !k.alt {
                    push_char(query, c);
                    true
                } else {
                    false
                }
            },
            _ => false,
        },
        _ => false,
    }
}

/// Status file filter popup.
pub struct StatusFilterPopup {
    query: String,
    /// The filter text the popup was opened with; Esc restores it so the
    /// tree is not left filtered by an abandoned half-typed query
    initial: String,
    queue: Queue,
}

impl StatusFilterPopup {
    pub fn new(initial: &str) -> (p: StatusFilterPopup)
        ensures
            p.query() == initial@,
            p.initial() == initial@,
            p.queued() == Seq::<InternalEvent>::empty(),
    {
        StatusFilterPopup { query: initial.to_owned(), initial: initial.to_owned(), queue: Queue::new() }
    }

    /// The query typed so far.
    pub closed spec fn query(&self) -> Seq<char> {
        self.query@
    }

    /// The filter text the popup was opened with.
    pub closed spec fn initial(&self) -> Seq<char> {
        self.initial@
    }

    /// The requests queued for the app.
    pub closed spec fn queued(&self) -> Seq<InternalEvent> {
        self.queue@
    }

    /// The query typed so far.
    pub fn query_text(&self) -> (q: &str)
        ensures
            q@ == self.query(),
    {
        self.query.as_str()
    }

    /// Take the queued requests, oldest first.
    pub fn take_events(&mut self) -> (v: Vec<InternalEvent>)
        ensures
            v@ == old(self).queued(),
            final(self).queued() == Seq::<InternalEvent>::empty(),
            final(self).query() == old(self).query(),
            final(self).initial() == old(self).initial(),
    {
        self.queue.drain()
    }

    /// Handle an input event (see [`filter_step`]).
    pub fn event(&mut self, ev: &Event) -> (r: Result<EventState, String>)
        ensures
            ({
                let (q2, reqs, used) = filter_step(old(self).query(), old(self).initial(), *ev);
                &&& final(self).query() == q2
                &&& final(self).initial() == old(self).initial()
                &&& query_requested(old(self).queued(), final(self).queued(), reqs)
                &&& r == Ok::<EventState, String>(EventState { consumed: used })
            }),
    {
        let ghost q0 = self.queue@;
        let special = match ev {
            Event::Key(k) => match k.code {
                KeyCode::Esc => 1u8,
                KeyCode::Enter => 2u8,
                _ => 0u8,
            },
            _ => 0u8,
        };
        if special == 1 {
            let restore = InternalEvent::StatusFilterInput(self.initial.clone());
            self.queue.push(restore);
            self.queue.push(InternalEvent::ClosePopup);
            proof {
                lemma_query_two(q0, restore, QueryRequest::FilterInput(self.initial@), InternalEvent::ClosePopup, QueryRequest::Close);
            }
            return Ok(EventState::consumed());
        }
        if special == 2 {
            self.queue.push(InternalEvent::ClosePopup);
            proof {
                lemma_query_one(q0, InternalEvent::ClosePopup, QueryRequest::Close);
            }
            return Ok(EventState::consumed());
        }
        if edit(&mut self.query, ev) {
            let input = InternalEvent::StatusFilterInput(self.query.clone());
            self.queue.push(input);
            proof {
                lemma_query_one(q0, input, QueryRequest::FilterInput(self.query@));
            }
            Ok(EventState::consumed())
        } else {
            proof {
                lemma_query_none(q0);
            }
            Ok(EventState::not_consumed())
        }
    }
}

/// Commit search popup.
pub struct LogSearchPopup {
    query: String,
    queue: Queue,
}

impl LogSearchPopup {
    pub fn new(initial: &str) -> (p: LogSearchPopup)
        ensures
            p.query() == initial@,
            p.queued() == Seq::<InternalEvent>::empty(),
    {
        LogSearchPopup { query: initial.to_owned(), queue: Queue::new() }
    }

    /// The query typed so far.
    pub closed spec fn query(&self) -> Seq<char> {
        self.query@
    }

    /// The requests queued for the app.
    pub closed spec fn queued(&self) -> Seq<InternalEvent> {
        self.queue@
    }

    /// The query typed so far.
    pub fn query_text(&self) -> (q: &str)
        ensures
            q@ == self.query(),
    {
        self.query.as_str()
    }

    /// Take the queued requests, oldest first.
    pub fn take_events(&mut self) -> (v: Vec<InternalEvent>)
        ensures
            v@ == old(self).queued(),
            final(self).queued() == Seq::<InternalEvent>::empty(),
            final(self).query() == old(self).query(),
    {
        self.queue.drain()
    }

    /// Handle an input event (see [`search_popup_step`]).
    pub fn event(&mut self, ev: &Event) -> (r: Result<EventState, String>)
        ensures
            ({
                let (q2, reqs, used) = search_popup_step(old(self).query(), *ev);
                &&& final(self).query() == q2
                &&& query_requested(old(self).queued(), final(self).queued(), reqs)
                &&& r == Ok::<EventState, String>(EventState { consumed: used })
            }),
    {
        let ghost q0 = self.queue@;
        let special = match ev {
            Event::Key(k) => match k.code {
                KeyCode::Esc => 1u8,
                KeyCode::Enter => 2u8,
                _ => 0u8,
            },
            _ => 0u8,
        };
        if special == 1 {
            self.queue.push(InternalEvent::ClosePopup);
            proof {
                lemma_query_one(q0, InternalEvent::ClosePopup, QueryRequest::Close);
            }
            return Ok(EventState::consumed());
        }
        if special == 2 {
            if self.query.as_str().is_empty() {
                self.queue.push(InternalEvent::ClosePopup);
                proof {
                    lemma_query_one(q0, InternalEvent::ClosePopup, QueryRequest::Close);
                }
            } else {
                let search = InternalEvent::SearchLog(self.query.clone());
                self.queue.push(search);
                self.queue.push(InternalEvent::ClosePopup);
                proof {
                    lemma_query_two(q0, search, QueryRequest::SearchLog(self.query@), InternalEvent::ClosePopup, QueryRequest::Close);
                }
            }
            return Ok(EventState::consumed());
        }
        if edit(&mut self.query, ev) {
            let input = InternalEvent::LogSearchInput(self.query.clone());
            self.queue.push(input);
            proof {
                lemma_query_one(q0, input, QueryRequest::SearchInput(self.query@));
            }
            Ok(EventState::consumed())
        } else {
            proof {
                lemma_query_none(q0);
            }
            Ok(EventState::not_consumed())
        }
    }
}

} // verus!
