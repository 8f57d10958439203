//! Key bindings: the keys the terminal front end reacts to, the logical
//! actions they map to, and the binding list shown in the help popup.

use vstd::prelude::*;

verus! {

/// A key of the keyboard, as the front end reports it.
#[derive(Clone, Copy, Debug, PartialEq, Eq, Structural)]
pub enum KeyCode {
    Char(char),
    Up,
    Down,
    Left,
    Right,
    PageUp,
    PageDown,
    Home,
    End,
    Enter,
    Esc,
    Tab,
    BackTab,
    Backspace,
    Delete,
    Insert,
    F(u8),
    /// Any other key (media keys, modifiers pressed alone, ...)
    Other,
}

/// A key press: the key and the modifiers held with it.
#[derive(Clone, Copy, Debug, PartialEq, Eq, Structural)]
pub struct KeyEvent {
    pub code: KeyCode,
    pub ctrl: bool,
    pub alt: bool,
    pub shift: bool,
}

impl KeyEvent {
    /// A key pressed without modifiers.
    pub fn plain(code: KeyCode) -> (ev: KeyEvent)
        ensures
            ev == (KeyEvent { code, ctrl: false, alt: false, shift: false }),
    {
        KeyEvent { code, ctrl: false, alt: false, shift: false }
    }
}

/// An input event of the terminal, as far as the views care: a key press,
/// a bracketed paste, a mouse event, or anything else (resize, focus).
#[derive(Clone, Debug, PartialEq, Eq)]
pub enum Event {
    Key(KeyEvent),
    Paste(String),
    Mouse,
    Other,
}

/// A description of a keybinding, used for the help popup and status bar.
#[derive(Clone, Debug)]
pub struct KeyBinding {
    /// Human readable key string, e.g. "j / ↓"
    pub keys: String,
    /// What the key does
    pub description: String,
}

impl KeyBinding {
    pub fn new(keys: &'static str, description: &'static str) -> (b: KeyBinding)
        ensures
            b.keys@ == keys@,
            b.description@ == description@,
    {
        KeyBinding { keys: keys.to_owned(), description: description.to_owned() }
    }
}

/// Logical actions mapped from keys.
#[derive(Clone, Copy, Debug, PartialEq, Eq, Structural)]
pub enum KeyAction {
    MoveUp,
    MoveDown,
    MoveLeft,
    MoveRight,
    PageUp,
    PageDown,
    Home,
    End,
    Enter,
    Escape,
    Quit,
    ToggleStage,
    StageAll,
    UnstageAll,
    AddFiles,
    RevertFiles,
    ResolveConflict,
    Commit,
    UpdateWc,
    DiffFull,
    Blame,
    Filter,
    Refresh,
    SwitchTabStatus,
    SwitchTabLog,
    SwitchTabPatches,
    Help,
    Confirm,
    Deny,
    ClosePopup,
    FocusNext,
    FocusPrev,
    CommitConfirm,
    OpenRevisionDiff,
    UpdateToRevision,
    FileHistory,
    OpenFileFinder,
    ToggleMark,
    ViewCommitInfo,
    BlameFileFinder,
    SavePatch,
    PreviewPatch,
    ApplyPatch,
    DeletePatch,
    DetailScrollDown,
    DetailScrollUp,
    RepoInfo,
}

/// `ev` is `code` pressed without Control or Alt (Shift is tolerated, so
/// that letters typed with caps lock still match).
pub open spec fn plain(ev: KeyEvent, code: KeyCode) -> bool {
    ev.code == code && !ev.ctrl && !ev.alt
}

/// The binding table: whether the key press `ev` triggers `action`.
pub open spec fn binds(ev: KeyEvent, action: KeyAction) -> bool {
    match action {
        KeyAction::MoveUp => plain(ev, KeyCode::Up) || plain(ev, KeyCode::Char('k')),
        KeyAction::MoveDown => plain(ev, KeyCode::Down) || plain(ev, KeyCode::Char('j')),
        KeyAction::MoveLeft => plain(ev, KeyCode::Left) || plain(ev, KeyCode::Char('h')),
        KeyAction::MoveRight => plain(ev, KeyCode::Right) || plain(ev, KeyCode::Char('l')),
        KeyAction::PageUp => plain(ev, KeyCode::PageUp) || plain(ev, KeyCode::Char('K')),
        KeyAction::PageDown => plain(ev, KeyCode::PageDown) || plain(ev, KeyCode::Char('J')),
        KeyAction::Home => plain(ev, KeyCode::Home) || plain(ev, KeyCode::Char('g')),
        KeyAction::End => plain(ev, KeyCode::End) || plain(ev, KeyCode::Char('G')),
        KeyAction::Enter => plain(ev, KeyCode::Enter),
        KeyAction::Escape => plain(ev, KeyCode::Esc),
        KeyAction::Quit => plain(ev, KeyCode::Char('q')),
        KeyAction::ToggleStage => plain(ev, KeyCode::Char(' ')),
        KeyAction::StageAll => plain(ev, KeyCode::Char('A')),
        KeyAction::UnstageAll => plain(ev, KeyCode::Char('U')),
        KeyAction::AddFiles => plain(ev, KeyCode::Char('a')),
        KeyAction::RevertFiles => plain(ev, KeyCode::Char('r')),
        KeyAction::ResolveConflict => plain(ev, KeyCode::Char('x')),
        KeyAction::Commit => plain(ev, KeyCode::Char('c')),
        KeyAction::UpdateWc => plain(ev, KeyCode::Char('u')),
        KeyAction::DiffFull => plain(ev, KeyCode::Char('d')),
        KeyAction::Blame => plain(ev, KeyCode::Char('b')),
        KeyAction::Filter => plain(ev, KeyCode::Char('/')),
        KeyAction::Refresh => plain(ev, KeyCode::F(5)) || plain(ev, KeyCode::Char('R')),
        KeyAction::SwitchTabStatus => plain(ev, KeyCode::Char('1')),
        KeyAction::SwitchTabLog => plain(ev, KeyCode::Char('2')),
        KeyAction::SwitchTabPatches => plain(ev, KeyCode::Char('3')),
        KeyAction::Help => plain(ev, KeyCode::Char('?')),
        KeyAction::Confirm => plain(ev, KeyCode::Char('y')) || plain(ev, KeyCode::Char('Y')),
        KeyAction::Deny => plain(ev, KeyCode::Char('n')) || plain(ev, KeyCode::Char('N')),
        KeyAction::ClosePopup => plain(ev, KeyCode::Esc),
        KeyAction::FocusNext => plain(ev, KeyCode::Tab) && !ev.shift,
        KeyAction::FocusPrev => plain(ev, KeyCode::BackTab) || (plain(ev, KeyCode::Tab) && ev.shift),
        KeyAction::CommitConfirm => (ev.code == KeyCode::Enter && !ev.ctrl && !ev.alt && !ev.shift) || (ev.code == KeyCode::Char('s') && ev.ctrl),
        KeyAction::OpenRevisionDiff => plain(ev, KeyCode::Enter) || plain(ev, KeyCode::Char('d')),
        KeyAction::UpdateToRevision => plain(ev, KeyCode::Char('o')),
        KeyAction::FileHistory => plain(ev, KeyCode::Char('t')),
        KeyAction::OpenFileFinder => ev.code == KeyCode::Char('p') && ev.ctrl,
        KeyAction::ToggleMark => plain(ev, KeyCode::Char(' ')),
        KeyAction::ViewCommitInfo => plain(ev, KeyCode::Char('v')),
        KeyAction::BlameFileFinder => ev.code == KeyCode::Char('b') && ev.ctrl,
        KeyAction::SavePatch => plain(ev, KeyCode::Char('P')),
        KeyAction::PreviewPatch => plain(ev, KeyCode::Char('p')),
        KeyAction::ApplyPatch => plain(ev, KeyCode::Char('a')),
        KeyAction::DeletePatch => plain(ev, KeyCode::Char('d')),
        KeyAction::DetailScrollDown => ev.code == KeyCode::Char('d') && ev.ctrl,
        KeyAction::DetailScrollUp => ev.code == KeyCode::Char('u') && ev.ctrl,
        KeyAction::RepoInfo => plain(ev, KeyCode::Char('i')),
    }
}

/// Match a single key code ignoring modifiers like SHIFT for letters,
/// but rejecting CONTROL/ALT combos (Alt+q must not quit, etc.).
fn is_key(ev: &KeyEvent, code: KeyCode) -> (b: bool)
    ensures
        b == plain(*ev, code),
{
    ev.code == code && !ev.ctrl && !ev.alt
}

/// Central keybindings: whether `ev` triggers `action`.
pub fn key_match(ev: &KeyEvent, action: KeyAction) -> (b: bool)
    ensures
        b == binds(*ev, action),
{
    match action {
        KeyAction::MoveUp => is_key(ev, KeyCode::Up) || is_key(ev, KeyCode::Char('k')),
        KeyAction::MoveDown => is_key(ev, KeyCode::Down) || is_key(ev, KeyCode::Char('j')),
        KeyAction::MoveLeft => is_key(ev, KeyCode::Left) || is_key(ev, KeyCode::Char('h')),
        KeyAction::MoveRight => is_key(ev, KeyCode::Right) || is_key(ev, KeyCode::Char('l')),
        KeyAction::PageUp => is_key(ev, KeyCode::PageUp) || is_key(ev, KeyCode::Char('K')),
        KeyAction::PageDown => is_key(ev, KeyCode::PageDown) || is_key(ev, KeyCode::Char('J')),
        KeyAction::Home => is_key(ev, KeyCode::Home) || is_key(ev, KeyCode::Char('g')),
        KeyAction::End => is_key(ev, KeyCode::End) || is_key(ev, KeyCode::Char('G')),
        KeyAction::Enter => is_key(ev, KeyCode::Enter),
        KeyAction::Escape => is_key(ev, KeyCode::Esc),
        KeyAction::Quit => is_key(ev, KeyCode::Char('q')),
        KeyAction::ToggleStage => is_key(ev, KeyCode::Char(' ')),
        KeyAction::StageAll => is_key(ev, KeyCode::Char('A')),
        KeyAction::UnstageAll => is_key(ev, KeyCode::Char('U')),
        KeyAction::AddFiles => is_key(ev, KeyCode::Char('a')),
        KeyAction::RevertFiles => is_key(ev, KeyCode::Char('r')),
        KeyAction::ResolveConflict => is_key(ev, KeyCode::Char('x')),
        KeyAction::Commit => is_key(ev, KeyCode::Char('c')),
        KeyAction::UpdateWc => is_key(ev, KeyCode::Char('u')),
        KeyAction::DiffFull => is_key(ev, KeyCode::Char('d')),
        KeyAction::Blame => is_key(ev, KeyCode::Char('b')),
        KeyAction::Filter => is_key(ev, KeyCode::Char('/')),
        KeyAction::Refresh => is_key(ev, KeyCode::F(5)) || is_key(ev, KeyCode::Char('R')),
        KeyAction::SwitchTabStatus => is_key(ev, KeyCode::Char('1')),
        KeyAction::SwitchTabLog => is_key(ev, KeyCode::Char('2')),
        KeyAction::SwitchTabPatches => is_key(ev, KeyCode::Char('3')),
        KeyAction::Help => is_key(ev, KeyCode::Char('?')),
        KeyAction::Confirm => is_key(ev, KeyCode::Char('y')) || is_key(ev, KeyCode::Char('Y')),
        KeyAction::Deny => is_key(ev, KeyCode::Char('n')) || is_key(ev, KeyCode::Char('N')),
        KeyAction::ClosePopup => is_key(ev, KeyCode::Esc),
        KeyAction::FocusNext => is_key(ev, KeyCode::Tab) && !ev.shift,
        KeyAction::FocusPrev => is_key(ev, KeyCode::BackTab) || (is_key(ev, KeyCode::Tab) && ev.shift),
        KeyAction::CommitConfirm => (ev.code == KeyCode::Enter && !ev.ctrl && !ev.alt && !ev.shift) || (ev.code == KeyCode::Char('s') && ev.ctrl),
        KeyAction::OpenRevisionDiff => is_key(ev, KeyCode::Enter) || is_key(ev, KeyCode::Char('d')),
        KeyAction::UpdateToRevision => is_key(ev, KeyCode::Char('o')),
        KeyAction::FileHistory => is_key(ev, KeyCode::Char('t')),
        KeyAction::OpenFileFinder => ev.code == KeyCode::Char('p') && ev.ctrl,
        KeyAction::ToggleMark => is_key(ev, KeyCode::Char(' ')),
        KeyAction::ViewCommitInfo => is_key(ev, KeyCode::Char('v')),
        KeyAction::BlameFileFinder => ev.code == KeyCode::Char('b') && ev.ctrl,
        KeyAction::SavePatch => is_key(ev, KeyCode::Char('P')),
        KeyAction::PreviewPatch => is_key(ev, KeyCode::Char('p')),
        KeyAction::ApplyPatch => is_key(ev, KeyCode::Char('a')),
        KeyAction::DeletePatch => is_key(ev, KeyCode::Char('d')),
        KeyAction::DetailScrollDown => ev.code == KeyCode::Char('d') && ev.ctrl,
        KeyAction::DetailScrollUp => ev.code == KeyCode::Char('u') && ev.ctrl,
        KeyAction::RepoInfo => is_key(ev, KeyCode::Char('i')),
    }
}

/// Control and Alt chords never trigger an action bound to a bare key:
/// only the actions bound to a Control chord react to a key pressed with
/// Control, and no action reacts to a key pressed with Alt.
pub proof fn lemma_chords_only_for_chord_actions(ev: KeyEvent, action: KeyAction)
    requires
        ev.ctrl || ev.alt,
        binds(ev, action),
    ensures
        ev.ctrl,
        action == KeyAction::CommitConfirm || action == KeyAction::OpenFileFinder
            || action == KeyAction::BlameFileFinder || action == KeyAction::DetailScrollDown
            || action == KeyAction::DetailScrollUp,
{
}

/// A titled section of the help popup: the bindings of one context
/// (global keys, one per tab, popup-specific keys).
pub struct KeyGroup {
    pub title: &'static str,
    pub bindings: Vec<KeyBinding>,
}

/// Every binding of `bs` names its keys and says what they do.
pub open spec fn bindings_filled(bs: Seq<KeyBinding>) -> bool {
    forall|i: int|
        0 <= i < bs.len() ==> (#[trigger] bs[i]).keys@.len() > 0 && bs[i].description@.len() > 0
}

/// The "Global" section of the help popup.
fn global_group() -> (g: KeyGroup)
    ensures
        g.title@ == "Global"@,
        g.bindings@.len() == 7,
        bindings_filled(g.bindings@),
{
    let mut b: Vec<KeyBinding> = Vec::new();
    proof {
        reveal_strlit("1 / 2 / 3");
        reveal_strlit("Switch tab: status / log / patches");
    }
    b.push(KeyBinding::new("1 / 2 / 3", "Switch tab: status / log / patches"));
    proof {
        reveal_strlit("Tab / Shift+Tab");
        reveal_strlit("Status tab: cycle pane focus; log/patches: switch tab");
    }
    b.push(KeyBinding::new("Tab / Shift+Tab", "Status tab: cycle pane focus; log/patches: switch tab"));
    proof {
        reveal_strlit("Ctrl+p");
        reveal_strlit("Fuzzy find a versioned file");
    }
    b.push(KeyBinding::new("Ctrl+p", "Fuzzy find a versioned file"));
    proof {
        reveal_strlit("P");
        reveal_strlit("Save working-copy changes as a patch file (no revert)");
    }
    b.push(KeyBinding::new("P", "Save working-copy changes as a patch file (no revert)"));
    proof {
        reveal_strlit("F5 / R");
        reveal_strlit("Refresh status / log / patch list");
    }
    b.push(KeyBinding::new("F5 / R", "Refresh status / log / patch list"));
    proof {
        reveal_strlit("?");
        reveal_strlit("Show this help");
    }
    b.push(KeyBinding::new("?", "Show this help"));
    proof {
        reveal_strlit("q");
        reveal_strlit("Quit svnui");
    }
    b.push(KeyBinding::new("q", "Quit svnui"));
    KeyGroup { title: "Global", bindings: b }
}

/// The "Status tab" section of the help popup.
fn status_group() -> (g: KeyGroup)
    ensures
        g.title@ == "Status tab"@,
        g.bindings@.len() == 17,
        bindings_filled(g.bindings@),
{
    let mut b: Vec<KeyBinding> = Vec::new();
    proof {
        reveal_strlit("j / ↓ / k / ↑");
        reveal_strlit("Move selection");
    }
    b.push(KeyBinding::new("j / ↓ / k / ↑", "Move selection"));
    proof {
        reveal_strlit("h / ← / l / →");
        reveal_strlit("Collapse / expand directory");
    }
    b.push(KeyBinding::new("h / ← / l / →", "Collapse / expand directory"));
    proof {
        reveal_strlit("g / G");
        reveal_strlit("Jump to first / last entry");
    }
    b.push(KeyBinding::new("g / G", "Jump to first / last entry"));
    proof {
        reveal_strlit("PgUp / PgDn");
        reveal_strlit("Page up / down");
    }
    b.push(KeyBinding::new("PgUp / PgDn", "Page up / down"));
    proof {
        reveal_strlit("space");
        reveal_strlit("Stage / unstage (toggle commit set)");
    }
    b.push(KeyBinding::new("space", "Stage / unstage (toggle commit set)"));
    proof {
        reveal_strlit("A / U");
        reveal_strlit("Stage all changes / unstage all");
    }
    b.push(KeyBinding::new("A / U", "Stage all changes / unstage all"));
    proof {
        reveal_strlit("a");
        reveal_strlit("Add selected files (svn add)");
    }
    b.push(KeyBinding::new("a", "Add selected files (svn add)"));
    proof {
        reveal_strlit("r");
        reveal_strlit("Revert selected files (svn revert)");
    }
    b.push(KeyBinding::new("r", "Revert selected files (svn revert)"));
    proof {
        reveal_strlit("x");
        reveal_strlit("Resolve conflict (accept working copy)");
    }
    b.push(KeyBinding::new("x", "Resolve conflict (accept working copy)"));
    proof {
        reveal_strlit("Enter / d");
        reveal_strlit("Diff of the selected file");
    }
    b.push(KeyBinding::new("Enter / d", "Diff of the selected file"));
    proof {
        reveal_strlit("b");
        reveal_strlit("Blame file (svn blame)");
    }
    b.push(KeyBinding::new("b", "Blame file (svn blame)"));
    proof {
        reveal_strlit("t");
        reveal_strlit("File history (svn log of selected file)");
    }
    b.push(KeyBinding::new("t", "File history (svn log of selected file)"));
    proof {
        reveal_strlit("/");
        reveal_strlit("Filter files");
    }
    b.push(KeyBinding::new("/", "Filter files"));
    proof {
        reveal_strlit("c");
        reveal_strlit("Focus commit message / commit");
    }
    b.push(KeyBinding::new("c", "Focus commit message / commit"));
    proof {
        reveal_strlit("Enter / Ctrl+s");
        reveal_strlit("Commit (in commit input)");
    }
    b.push(KeyBinding::new("Enter / Ctrl+s", "Commit (in commit input)"));
    proof {
        reveal_strlit("Tab");
        reveal_strlit("Commit input: pick a recent message");
    }
    b.push(KeyBinding::new("Tab", "Commit input: pick a recent message"));
    proof {
        reveal_strlit("u");
        reveal_strlit("Update working copy (svn update)");
    }
    b.push(KeyBinding::new("u", "Update working copy (svn update)"));
    KeyGroup { title: "Status tab", bindings: b }
}

/// The "Log tab" section of the help popup.
fn log_group() -> (g: KeyGroup)
    ensures
        g.title@ == "Log tab"@,
        g.bindings@.len() == 6,
        bindings_filled(g.bindings@),
{
    let mut b: Vec<KeyBinding> = Vec::new();
    proof {
        reveal_strlit("Enter / d");
        reveal_strlit("Diff of selected / marked revisions");
    }
    b.push(KeyBinding::new("Enter / d", "Diff of selected / marked revisions"));
    proof {
        reveal_strlit("space");
        reveal_strlit("Mark / unmark revision (range diff)");
    }
    b.push(KeyBinding::new("space", "Mark / unmark revision (range diff)"));
    proof {
        reveal_strlit("v");
        reveal_strlit("Show full commit info");
    }
    b.push(KeyBinding::new("v", "Show full commit info"));
    proof {
        reveal_strlit("o");
        reveal_strlit("Update working copy to selected revision");
    }
    b.push(KeyBinding::new("o", "Update working copy to selected revision"));
    proof {
        reveal_strlit("/");
        reveal_strlit("Filter loaded commits / search all history");
    }
    b.push(KeyBinding::new("/", "Filter loaded commits / search all history"));
    proof {
        reveal_strlit("Ctrl+d / Ctrl+u");
        reveal_strlit("Scroll commit details down / up");
    }
    b.push(KeyBinding::new("Ctrl+d / Ctrl+u", "Scroll commit details down / up"));
    KeyGroup { title: "Log tab", bindings: b }
}

/// The "Patches tab" section of the help popup.
fn patches_group() -> (g: KeyGroup)
    ensures
        g.title@ == "Patches tab"@,
        g.bindings@.len() == 3,
        bindings_filled(g.bindings@),
{
    let mut b: Vec<KeyBinding> = Vec::new();
    proof {
        reveal_strlit("Enter / p");
        reveal_strlit("Preview patch (diff view)");
    }
    b.push(KeyBinding::new("Enter / p", "Preview patch (diff view)"));
    proof {
        reveal_strlit("a");
        reveal_strlit("Apply patch (svn patch, confirmed)");
    }
    b.push(KeyBinding::new("a", "Apply patch (svn patch, confirmed)"));
    proof {
        reveal_strlit("d");
        reveal_strlit("Delete patch file (confirmed)");
    }
    b.push(KeyBinding::new("d", "Delete patch file (confirmed)"));
    KeyGroup { title: "Patches tab", bindings: b }
}

/// The "Popups" section of the help popup.
fn popups_group() -> (g: KeyGroup)
    ensures
        g.title@ == "Popups"@,
        g.bindings@.len() == 6,
        bindings_filled(g.bindings@),
{
    let mut b: Vec<KeyBinding> = Vec::new();
    proof {
        reveal_strlit("/");
        reveal_strlit("Diff / blame popup: search text (live)");
    }
    b.push(KeyBinding::new("/", "Diff / blame popup: search text (live)"));
    proof {
        reveal_strlit("n / N");
        reveal_strlit("Diff / blame search: next / previous match");
    }
    b.push(KeyBinding::new("n / N", "Diff / blame search: next / previous match"));
    proof {
        reveal_strlit("Ctrl+b");
        reveal_strlit("File finder: blame highlighted file");
    }
    b.push(KeyBinding::new("Ctrl+b", "File finder: blame highlighted file"));
    proof {
        reveal_strlit("b");
        reveal_strlit("File history popup: blame the file");
    }
    b.push(KeyBinding::new("b", "File history popup: blame the file"));
    proof {
        reveal_strlit("Ctrl+d / Ctrl+u");
        reveal_strlit("File history popup: scroll commit message");
    }
    b.push(KeyBinding::new("Ctrl+d / Ctrl+u", "File history popup: scroll commit message"));
    proof {
        reveal_strlit("Esc");
        reveal_strlit("Close popup / cancel / clear search highlights");
    }
    b.push(KeyBinding::new("Esc", "Close popup / cancel / clear search highlights"));
    KeyGroup { title: "Popups", bindings: b }
}

/// Build the default binding list for the help popup, grouped by the
/// context in which the keys are active: global keys, the status, log and
/// patches tabs, and the popups, each with a title and at least one
/// binding, every binding with non-empty keys and description.
pub fn all_binding_groups() -> (r: Vec<KeyGroup>)
    ensures
        r@.len() == 5,
        r@[0].title@ == "Global"@,
        r@[1].title@ == "Status tab"@,
        r@[2].title@ == "Log tab"@,
        r@[3].title@ == "Patches tab"@,
        r@[4].title@ == "Popups"@,
        forall|i: int|
            0 <= i < r@.len() ==> (#[trigger] r@[i]).title@.len() > 0
                && r@[i].bindings@.len() > 0 && bindings_filled(r@[i].bindings@),
{
    let mut r: Vec<KeyGroup> = Vec::new();
    r.push(global_group());
    r.push(status_group());
    r.push(log_group());
    r.push(patches_group());
    r.push(popups_group());
    proof {
        reveal_strlit("Global");
        reveal_strlit("Status tab");
        reveal_strlit("Log tab");
        reveal_strlit("Patches tab");
        reveal_strlit("Popups");
    }
    r
}

} // verus!
