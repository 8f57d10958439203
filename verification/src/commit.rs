//! Bottom commit bar: single-line message input.
//!
//! Text editing is the `tui-textarea` crate's (the same approach gitui
//! uses), which handles wide characters (CJK) and horizontal scrolling, so
//! the cursor stays aligned with mixed Chinese/ASCII input. What the bar
//! decides itself (which edit a key makes, the recent-messages picker, when
//! a commit is asked for) is verified here against what the text area's
//! source shows of each edit.

use vstd::prelude::*;
use tui_textarea::{CursorMove, TextArea};
use crate::components::EventState;
use crate::keys::{binds, key_match, Event, KeyAction, KeyCode, KeyEvent};
use crate::queue::{ConfirmAction, InternalEvent, Queue};
use crate::text::{texts, push_char, push_str};

verus! {

/// The text area of the bar: `tui_textarea::TextArea`, held out of
/// Verus's sight (Verus refuses to read the crate's trait impls); what it
/// holds is named by [`input_lines`], [`input_cursor`] and
/// [`input_selecting`].
#[verifier::external_body]
pub struct CommitInput {
    ta: TextArea<'static>,
}

/// The lines the text area holds.
pub uninterp spec fn input_lines(t: CommitInput) -> Seq<Seq<char>>;

/// The cursor of the text area: row and char column.
pub uninterp spec fn input_cursor(t: CommitInput) -> (usize, usize);

/// Whether the text area has a selection going (`TextArea::is_selecting`).
pub uninterp spec fn input_selecting(t: CommitInput) -> bool;

/// `tui_textarea::TextArea::new`: the text area holds `lines` (one empty
/// line when there are none), the cursor at the start, no selection.
#[verifier::external_body]
fn input_new(lines: Vec<String>) -> (t: CommitInput)
    ensures
        input_lines(t) == (if lines@.len() == 0 {
            seq![Seq::<char>::empty()]
        } else {
            texts(lines@)
        }),
        input_cursor(t) == (0usize, 0usize),
        !input_selecting(t),
{
    CommitInput { ta: TextArea::new(lines) }
}

/// `tui_textarea::TextArea::lines`, copied out.
#[verifier::external_body]
fn input_text_lines(t: &CommitInput) -> (v: Vec<String>)
    ensures
        texts(v@) == input_lines(*t),
{
    t.ta.lines().to_vec()
}

/// The cursor stands on a line.
pub open spec fn cursor_ok(lines: Seq<Seq<char>>, cur: (usize, usize)) -> bool {
    cur.0 < lines.len()
}

/// The text `t` (without line breaks) inserted at the cursor: the lines
/// and the new cursor column.
pub open spec fn inserted(lines: Seq<Seq<char>>, cur: (usize, usize), t: Seq<char>) -> Seq<Seq<char>> {
    let line = lines[cur.0 as int];
    let i = if cur.1 < line.len() { cur.1 as int } else { line.len() as int };
    lines.update(cur.0 as int, line.take(i) + t + line.skip(i))
}

/// `tui_textarea::TextArea::cursor`.
#[verifier::external_body]
fn input_cursor_of(t: &CommitInput) -> (r: (usize, usize))
    ensures
        r == input_cursor(*t),
{
    t.ta.cursor()
}

/// `tui_textarea::TextArea::insert_char`: without a selection, a char
/// that is no line break goes in at the cursor, which moves past it. The
/// cursor stays on a line and no selection starts.
#[verifier::external_body]
fn input_insert_char(t: &mut CommitInput, c: char)
    requires
        cursor_ok(input_lines(*old(t)), input_cursor(*old(t))),
        input_cursor(*old(t)).1 < usize::MAX,
    ensures
        cursor_ok(input_lines(*final(t)), input_cursor(*final(t))),
        !input_selecting(*old(t)) ==> !input_selecting(*final(t)),
        !input_selecting(*old(t)) && c != '\n' && c != '\r' ==> input_lines(*final(t)) == inserted(
            input_lines(*old(t)),
            input_cursor(*old(t)),
            seq![c],
        ) && input_cursor(*final(t)) == (input_cursor(*old(t)).0, (input_cursor(*old(t)).1 + 1) as usize),
{
    t.ta.insert_char(c);
}

/// `tui_textarea::TextArea::insert_str`: without a selection, a text with
/// no `\n` goes in at the cursor (less one trailing `\r`), the cursor
/// moving past it. The cursor stays on a line and no selection starts;
/// what a text with line breaks does to the lines is left unsaid.
#[verifier::external_body]
fn input_insert_str(t: &mut CommitInput, s: &str)
    requires
        cursor_ok(input_lines(*old(t)), input_cursor(*old(t))),
        input_cursor(*old(t)).1 + s@.len() <= usize::MAX,
        input_lines(*old(t)).len() + s@.len() <= usize::MAX,
    ensures
        cursor_ok(input_lines(*final(t)), input_cursor(*final(t))),
        !input_selecting(*old(t)) ==> !input_selecting(*final(t)),
        !input_selecting(*old(t)) && !s@.contains('\n') ==> {
            let piece = if s@.len() > 0 && s@.last() == '\r' {
                s@.drop_last()
            } else {
                s@
            };
            &&& input_lines(*final(t)) == inserted(input_lines(*old(t)), input_cursor(*old(t)), piece)
            &&& input_cursor(*final(t)) == (input_cursor(*old(t)).0, (input_cursor(*old(t)).1 + piece.len()) as usize)
        },
{
    t.ta.insert_str(s);
}

/// The lines and cursor after one Backspace without a selection: the char
/// before the cursor goes; at the start of a line, the line joins the
/// one above.
pub open spec fn backspaced(lines: Seq<Seq<char>>, cur: (usize, usize)) -> (Seq<Seq<char>>, (usize, usize)) {
    let (row, col) = cur;
    if col == 0 {
        if row == 0 {
            (lines, cur)
        } else {
            let prev = lines[row - 1];
            (
                lines.take(row - 1).push(prev + lines[row as int]) + lines.skip(row + 1),
                ((row - 1) as usize, prev.len() as usize),
            )
        }
    } else if col - 1 < lines[row as int].len() {
        (lines.update(row as int, lines[row as int].remove(col - 1)), (row, (col - 1) as usize))
    } else {
        (lines, cur)
    }
}

/// `tui_textarea::TextArea::delete_char`: without a selection, see
/// [`backspaced`]. The cursor stays on a line.
#[verifier::external_body]
fn input_delete_char(t: &mut CommitInput)
    requires
        cursor_ok(input_lines(*old(t)), input_cursor(*old(t))),
    ensures
        cursor_ok(input_lines(*final(t)), input_cursor(*final(t))),
        !input_selecting(*old(t)) ==> !input_selecting(*final(t)) && (input_lines(*final(t)), input_cursor(
            *final(t),
        )) == backspaced(input_lines(*old(t)), input_cursor(*old(t))),
{
    t.ta.delete_char();
}

/// A cursor move of the bar.
#[derive(Clone, Copy, Debug, PartialEq, Eq, Structural)]
pub enum InputMove {
    Back,
    Forward,
    Head,
    End,
}

/// Where the cursor goes on a move (the lines stay).
pub open spec fn moved_cursor(lines: Seq<Seq<char>>, cur: (usize, usize), m: InputMove) -> (usize, usize) {
    let (row, col) = cur;
    let len = lines[row as int].len();
    match m {
        InputMove::Forward => if col >= len {
            if row + 1 < lines.len() {
                ((row + 1) as usize, 0usize)
            } else {
                cur
            }
        } else {
            (row, (col + 1) as usize)
        },
        InputMove::Back => if col == 0 {
            if row == 0 {
                cur
            } else {
                ((row - 1) as usize, lines[row - 1].len() as usize)
            }
        } else {
            (row, (col - 1) as usize)
        },
        InputMove::Head => (row, 0usize),
        InputMove::End => (row, len as usize),
    }
}

/// `tui_textarea::TextArea::move_cursor` with `Back`, `Forward`, `Head`
/// or `End`: without a selection, see [`moved_cursor`]; the lines stay.
#[verifier::external_body]
fn input_move(t: &mut CommitInput, m: InputMove)
    requires
        cursor_ok(input_lines(*old(t)), input_cursor(*old(t))),
    ensures
        input_lines(*final(t)) == input_lines(*old(t)),
        cursor_ok(input_lines(*final(t)), input_cursor(*final(t))),
        !input_selecting(*old(t)) ==> !input_selecting(*final(t)) && input_cursor(*final(t)) == moved_cursor(
            input_lines(*old(t)),
            input_cursor(*old(t)),
            m,
        ),
{
    let cm = match m {
        InputMove::Back => CursorMove::Back,
        InputMove::Forward => CursorMove::Forward,
        InputMove::Head => CursorMove::Head,
        InputMove::End => CursorMove::End,
    };
    t.ta.move_cursor(cm);
}

/// How many recent commit messages the Tab picker lists.
pub const HISTORY_PICKER_LEN: usize = 10;

/// The lines joined by line breaks.
pub open spec fn joined(lines: Seq<Seq<char>>) -> Seq<char>
    decreases lines.len(),
{
    if lines.len() == 0 {
        Seq::empty()
    } else if lines.len() == 1 {
        lines[0]
    } else {
        joined(lines.drop_last()) + seq!['\n'] + lines.last()
    }
}

/// The value of the commit bar.
pub struct CommitState {
    pub lines: Seq<Seq<char>>,
    pub cursor: (usize, usize),
    pub focused: bool,
    pub hint: Seq<char>,
    /// Recent commit messages (newest first), shown by the Tab picker
    pub history: Seq<Seq<char>>,
    pub history_open: bool,
    pub history_sel: int,
    pub queue: Seq<InternalEvent>,
}

/// The picker's selection is on a message, or at 0 without messages.
pub open spec fn history_ok(s: CommitState) -> bool {
    &&& s.history.len() <= HISTORY_PICKER_LEN
    &&& (s.history.len() == 0 && s.history_sel == 0) || 0 <= s.history_sel < s.history.len()
    &&& s.history_open ==> s.history.len() > 0
    &&& cursor_ok(s.lines, s.cursor)
}

/// What the commit bar does with an input event.
pub enum CommitAction {
    /// Not the bar's event
    Ignore,
    /// Insert pasted text verbatim
    Paste(Seq<char>),
    PickerUp,
    PickerDown,
    /// Fill the input with the picked message
    PickerApply,
    PickerClose,
    /// Another key while the picker is open: swallowed
    PickerOther,
    OpenPicker,
    /// Ask to commit the message
    Confirm,
    Insert(char),
    /// Enter with a modifier: swallowed
    Swallow,
    Backspace,
    Move(InputMove),
    Unfocus,
}

/// The bar's bindings: nothing while unfocused; a paste is inserted
/// verbatim; the picker is modal while open; Tab (without Shift) opens it;
/// Enter or Ctrl+s asks to commit; chars typed without Control or Alt are
/// inserted; Backspace, the arrows, Home and End edit; Esc unfocuses.
pub open spec fn commit_action(s: CommitState, ev: Event) -> CommitAction {
    if !s.focused {
        CommitAction::Ignore
    } else {
        match ev {
            Event::Paste(t) => CommitAction::Paste(t@),
            Event::Key(k) => if s.history_open {
                match k.code {
                    KeyCode::Up => CommitAction::PickerUp,
                    KeyCode::Down | KeyCode::Tab => CommitAction::PickerDown,
                    KeyCode::Enter => CommitAction::PickerApply,
                    KeyCode::Esc => CommitAction::PickerClose,
                    _ => CommitAction::PickerOther,
                }
            } else if k.code == KeyCode::Tab && !k.shift {
                CommitAction::OpenPicker
            } else {
                match k.code {
                    KeyCode::Char(c) => if binds(k, KeyAction::CommitConfirm) {
                        CommitAction::Confirm
                    } else if k.ctrl || k.alt {
                        CommitAction::Ignore
                    } else {
                        CommitAction::Insert(c)
                    },
                    KeyCode::Enter => if binds(k, KeyAction::CommitConfirm) {
                        CommitAction::Confirm
                    } else {
                        CommitAction::Swallow
                    },
                    KeyCode::Backspace => CommitAction::Backspace,
                    KeyCode::Left => CommitAction::Move(InputMove::Back),
                    KeyCode::Right => CommitAction::Move(InputMove::Forward),
                    KeyCode::Home => CommitAction::Move(InputMove::Head),
                    KeyCode::End => CommitAction::Move(InputMove::End),
                    KeyCode::Esc => CommitAction::Unfocus,
                    _ => CommitAction::Ignore,
                }
            },
            _ => CommitAction::Ignore,
        }
    }
}

/// The queued event `e` asks to commit the message `m` (with no explicit
/// paths: the staged set decides).
pub open spec fn is_commit_request(e: InternalEvent, m: Seq<char>) -> bool {
    e matches InternalEvent::Confirm(ConfirmAction::Commit { message, paths }) && message@ == m && paths@.len() == 0
}

/// The bar after `ev`: `new_s` is what `old_s` becomes. Edits go through
/// the text area (see [`inserted`], [`backspaced`], [`moved_cursor`]);
/// a paste with line breaks, or a typed line break, leaves the lines to
/// the text area.
pub open spec fn commit_after(old_s: CommitState, new_s: CommitState, ev: Event) -> bool {
    let same_but_text = new_s.focused == old_s.focused && new_s.hint == old_s.hint && new_s.history
        == old_s.history && new_s.history_open == old_s.history_open && new_s.history_sel == old_s.history_sel
        && new_s.queue == old_s.queue;
    match commit_action(old_s, ev) {
        CommitAction::Ignore | CommitAction::PickerOther | CommitAction::Swallow => new_s == old_s,
        CommitAction::Paste(t) => same_but_text && (!t.contains('\n') ==> {
            let piece = if t.len() > 0 && t.last() == '\r' {
                t.drop_last()
            } else {
                t
            };
            new_s.lines == inserted(old_s.lines, old_s.cursor, piece) && new_s.cursor == (
                old_s.cursor.0,
                (old_s.cursor.1 + piece.len()) as usize,
            )
        }),
        CommitAction::PickerUp => new_s == (CommitState {
            history_sel: if old_s.history_sel > 0 {
                old_s.history_sel - 1
            } else {
                0
            },
            ..old_s
        }),
        CommitAction::PickerDown => new_s == (CommitState {
            history_sel: if old_s.history_sel + 1 < old_s.history.len() {
                old_s.history_sel + 1
            } else if old_s.history.len() == 0 {
                0
            } else {
                old_s.history.len() - 1
            },
            ..old_s
        }),
        CommitAction::PickerApply => new_s == (CommitState {
            lines: seq![old_s.history[old_s.history_sel]],
            cursor: (0usize, old_s.history[old_s.history_sel].len() as usize),
            history_open: false,
            ..old_s
        }),
        CommitAction::PickerClose => new_s == (CommitState { history_open: false, ..old_s }),
        CommitAction::OpenPicker => new_s == (if old_s.history.len() > 0 {
            CommitState { history_open: true, history_sel: 0, ..old_s }
        } else {
            old_s
        }),
        CommitAction::Confirm => new_s == (CommitState {
            queue: new_s.queue,
            ..old_s
        }) && new_s.queue.len() == old_s.queue.len() + 1 && new_s.queue.drop_last() == old_s.queue
            && is_commit_request(new_s.queue.last(), joined(old_s.lines)),
        CommitAction::Insert(c) => same_but_text && (c != '\n' && c != '\r' ==> new_s.lines == inserted(
            old_s.lines,
            old_s.cursor,
            seq![c],
        ) && new_s.cursor == (old_s.cursor.0, (old_s.cursor.1 + 1) as usize)),
        CommitAction::Backspace => same_but_text && (new_s.lines, new_s.cursor) == backspaced(
            old_s.lines,
            old_s.cursor,
        ),
        CommitAction::Move(m) => same_but_text && new_s.lines == old_s.lines && new_s.cursor == moved_cursor(
            old_s.lines,
            old_s.cursor,
            m,
        ),
        CommitAction::Unfocus => new_s == (CommitState { focused: false, history_open: false, ..old_s }),
    }
}

/// The bar after a new list of recent messages: the first
/// [`HISTORY_PICKER_LEN`]; the picker's selection stays on a message, and
/// the picker closes when there is none.
pub open spec fn history_set(s: CommitState, messages: Seq<Seq<char>>) -> CommitState {
    let n = if messages.len() < HISTORY_PICKER_LEN { messages.len() as int } else { HISTORY_PICKER_LEN as int };
    CommitState {
        history: messages.take(n),
        history_sel: if s.history_sel >= n {
            if n == 0 {
                0
            } else {
                n - 1
            }
        } else {
            s.history_sel
        },
        history_open: s.history_open && n > 0,
        ..s
    }
}

/// Bottom commit bar.
pub struct CommitComponent {
    input: CommitInput,
    focused: bool,
    /// Status hint, e.g. "3 file(s) staged".
    hint: String,
    history: Vec<String>,
    history_open: bool,
    history_sel: usize,
    queue: Queue,
}

impl View for CommitComponent {
    type V = CommitState;

    closed spec fn view(&self) -> CommitState {
        CommitState {
            lines: input_lines(self.input),
            cursor: input_cursor(self.input),
            focused: self.focused,
            hint: self.hint@,
            history: texts(self.history@),
            history_open: self.history_open,
            history_sel: self.history_sel as int,
            queue: self.queue@,
        }
    }
}

impl CommitComponent {
    /// The bar is in a consistent state: the picker's selection is on a
    /// message, the cursor on a line, no selection going.
    pub closed spec fn wf(&self) -> bool {
        &&& history_ok(self@)
        &&& !input_selecting(self.input)
    }

    pub fn new() -> (c: CommitComponent)
        ensures
            c.wf(),
            c@ == (CommitState {
                lines: seq![Seq::<char>::empty()],
                cursor: (0usize, 0usize),
                focused: false,
                hint: Seq::empty(),
                history: Seq::empty(),
                history_open: false,
                history_sel: 0,
                queue: Seq::empty(),
            }),
    {
        let v = vec![String::new()];
        assert(texts(v@) =~= seq![Seq::<char>::empty()]);
        let c = CommitComponent {
            input: input_new(v),
            focused: false,
            hint: String::new(),
            history: Vec::new(),
            history_open: false,
            history_sel: 0,
            queue: Queue::new(),
        };
        assert(texts(c.history@) =~= Seq::<Seq<char>>::empty());
        c
    }

    pub fn focus(&mut self)
        requires
            old(self).wf(),
        ensures
            final(self).wf(),
            final(self)@ == (CommitState { focused: true, ..old(self)@ }),
    {
        self.focused = true;
    }

    pub fn unfocus(&mut self)
        requires
            old(self).wf(),
        ensures
            final(self).wf(),
            final(self)@ == (CommitState { focused: false, history_open: false, ..old(self)@ }),
    {
        self.focused = false;
        self.history_open = false;
    }

    /// Give the bar the focus or take it away (the picker stays as it is).
    pub fn set_focused(&mut self, focused: bool)
        requires
            old(self).wf(),
        ensures
            final(self).wf(),
            final(self)@ == (CommitState { focused, ..old(self)@ }),
    {
        self.focused = focused;
    }

    /// Whether the bar has the focus.
    pub fn focused(&self) -> (b: bool)
        ensures
            b == self@.focused,
    {
        self.focused
    }

    /// The status hint.
    pub fn hint(&self) -> (h: &str)
        ensures
            h@ == self@.hint,
    {
        self.hint.as_str()
    }

    /// Replace the status hint.
    pub fn set_hint(&mut self, hint: String)
        requires
            old(self).wf(),
        ensures
            final(self).wf(),
            final(self)@ == (CommitState { hint: hint@, ..old(self)@ }),
    {
        self.hint = hint;
    }

    /// The recent messages of the picker.
    pub fn history(&self) -> (v: &[String])
        ensures
            texts(v@) == self@.history,
    {
        self.history.as_slice()
    }

    /// Whether the picker is open.
    pub fn history_open(&self) -> (b: bool)
        ensures
            b == self@.history_open,
    {
        self.history_open
    }

    /// The picker's selected row.
    pub fn history_sel(&self) -> (i: usize)
        ensures
            i == self@.history_sel,
    {
        self.history_sel
    }

    /// The lines of the input.
    pub fn lines(&self) -> (v: Vec<String>)
        ensures
            texts(v@) == self@.lines,
    {
        input_text_lines(&self.input)
    }

    /// The cursor of the input (row, char column).
    pub fn cursor(&self) -> (r: (usize, usize))
        ensures
            r == self@.cursor,
    {
        input_cursor_of(&self.input)
    }

    /// Take the queued requests, oldest first.
    pub fn take_events(&mut self) -> (v: Vec<InternalEvent>)
        requires
            old(self).wf(),
        ensures
            final(self).wf(),
            v@ == old(self)@.queue,
            final(self)@ == (CommitState { queue: Seq::empty(), ..old(self)@ }),
    {
        self.queue.drain()
    }

    /// Current commit message.
    pub fn text(&self) -> (r: String)
        ensures
            r@ == joined(self@.lines),
    {
        let lines = input_text_lines(&self.input);
        let ghost ls = texts(lines@);
        let mut out = String::new();
        let mut i: usize = 0;
        while i < lines.len()
            invariant
                i <= lines@.len(),
                ls == texts(lines@),
                out@ == joined(ls.take(i as int)),
            decreases lines.len() - i,
        {
            if i > 0 {
                push_char(&mut out, '\n');
            }
            push_str(&mut out, lines[i].as_str());
            proof {
                let t = ls.take(i + 1);
                assert(t.drop_last() =~= ls.take(i as int));
                assert(t.last() == ls[i as int]);
                if i == 0 {
                    assert(ls.take(0) =~= Seq::<Seq<char>>::empty());
                    assert(out@ =~= ls[0]);
                }
            }
            i = i + 1;
        }
        assert(ls.take(lines@.len() as int) =~= ls);
        out
    }

    /// Clear the input (after a successful commit).
    pub fn clear(&mut self)
        requires
            old(self).wf(),
        ensures
            final(self).wf(),
            final(self)@ == (CommitState {
                lines: seq![Seq::<char>::empty()],
                cursor: (0usize, 0usize),
                ..old(self)@
            }),
    {
        let v = vec![String::new()];
        assert(texts(v@) =~= seq![Seq::<char>::empty()]);
        self.input = input_new(v);
    }

    /// Replace the recent-message list (called when the log refreshes):
    /// the first [`HISTORY_PICKER_LEN`] messages; the picker's selection
    /// stays on a message.
    pub fn set_history(&mut self, messages: Vec<String>)
        requires
            old(self).wf(),
        ensures
            final(self).wf(),
            final(self)@ == history_set(old(self)@, texts(messages@)),
    {
        let mut h: Vec<String> = Vec::new();
        let mut i: usize = 0;
        while i < messages.len() && i < HISTORY_PICKER_LEN
            invariant
                i <= messages@.len(),
                i <= HISTORY_PICKER_LEN,
                texts(h@) == texts(messages@).take(i as int),
            decreases messages.len() - i,
        {
            let m = messages[i].clone();
            let ghost before = h@;
            h.push(m);
            assert(h@ == before.push(m));
            assert(texts(h@) =~= texts(before).push(m@));
            assert(texts(messages@).take(i + 1) =~= texts(messages@).take(i as int).push(messages@[i as int]@));
            i = i + 1;
        }
        self.history = h;
        if self.history_sel >= self.history.len() {
            self.history_sel = if self.history.len() == 0 {
                0
            } else {
                self.history.len() - 1
            };
        }
        if self.history.len() == 0 {
            self.history_open = false;
        }
    }

    /// Handle a key while the picker is open.
    fn picker_key(&mut self, k: &KeyEvent)
        requires
            old(self).wf(),
            old(self)@.history_open,
        ensures
            final(self).wf(),
            commit_after(old(self)@, final(self)@, Event::Key(*k)) || !old(self)@.focused,
    {
        let len = self.history.len();
        match k.code {
            KeyCode::Up => {
                if self.history_sel > 0 {
                    self.history_sel = self.history_sel - 1;
                }
            },
            KeyCode::Down | KeyCode::Tab => {
                if self.history_sel + 1 < len {
                    self.history_sel = self.history_sel + 1;
                } else {
                    self.history_sel = if len == 0 {
                        0
                    } else {
                        len - 1
                    };
                }
            },
            KeyCode::Enter => {
                let msg = self.history[self.history_sel].clone();
                let ghost m = msg@;
                let v = vec![msg];
                assert(texts(v@) =~= seq![m]);
                self.input = input_new(v);
                input_move(&mut self.input, InputMove::End);
                self.history_open = false;
            },
            KeyCode::Esc => {
                self.history_open = false;
            },
            _ => {},
        }
    }

    /// Queue a commit request for the current message.
    fn request_commit(&mut self)
        requires
            old(self).wf(),
        ensures
            final(self).wf(),
            final(self)@ == (CommitState { queue: final(self)@.queue, ..old(self)@ }),
            final(self)@.queue.len() == old(self)@.queue.len() + 1,
            final(self)@.queue.drop_last() == old(self)@.queue,
            is_commit_request(final(self)@.queue.last(), joined(old(self)@.lines)),
    {
        let message = self.text();
        let ghost q0 = self.queue@;
        self.queue.push(InternalEvent::Confirm(ConfirmAction::Commit { message, paths: Vec::new() }));
        assert(self.queue@.drop_last() =~= q0);
    }

    /// Handle an input event (see [`commit_action`]).
    pub fn event(&mut self, ev: &Event) -> (r: Result<EventState, String>)
        requires
            old(self).wf(),
            old(self)@.cursor.1 + 1 < usize::MAX,
            ev matches Event::Paste(t) ==> old(self)@.cursor.1 + t@.len() <= usize::MAX && old(self)@.lines.len()
                + t@.len() <= usize::MAX,
        ensures
            final(self).wf(),
            commit_after(old(self)@, final(self)@, *ev),
            r == Ok::<EventState, String>(
                EventState {
                    consumed: !(commit_action(old(self)@, *ev) is Ignore),
                },
            ),
    {
        if !self.focused {
            return Ok(EventState::not_consumed());
        }
        let k = match ev {
            Event::Paste(text) => {
                input_insert_str(&mut self.input, text.as_str());
                return Ok(EventState::consumed());
            },
            Event::Key(k) => k,
            _ => {
                return Ok(EventState::not_consumed());
            },
        };
        if self.history_open {
            self.picker_key(k);
            return Ok(EventState::consumed());
        }
        if k.code == KeyCode::Tab && !k.shift {
            if self.history.len() > 0 {
                self.history_open = true;
                self.history_sel = 0;
            }
            return Ok(EventState::consumed());
        }
        match k.code {
            KeyCode::Char(c) => {
                if key_match(k, KeyAction::CommitConfirm) {
                    self.request_commit();
                    return Ok(EventState::consumed());
                }
                if k.ctrl || k.alt {
                    return Ok(EventState::not_consumed());
                }
                input_insert_char(&mut self.input, c);
            },
            KeyCode::Enter => {
                if key_match(k, KeyAction::CommitConfirm) {
                    self.request_commit();
                }
            },
            KeyCode::Backspace => {
                input_delete_char(&mut self.input);
            },
            KeyCode::Left => input_move(&mut self.input, InputMove::Back),
            KeyCode::Right => input_move(&mut self.input, InputMove::Forward),
            KeyCode::Home => input_move(&mut self.input, InputMove::Head),
            KeyCode::End => input_move(&mut self.input, InputMove::End),
            KeyCode::Esc => {
                self.focused = false;
                self.history_open = false;
            },
            _ => {
                return Ok(EventState::not_consumed());
            },
        }
        Ok(EventState::consumed())
    }
}

} // verus!
