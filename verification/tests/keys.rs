use svnui::keys::{all_binding_groups, key_match, KeyAction, KeyBinding, KeyCode, KeyEvent};

fn key(code: KeyCode) -> KeyEvent {
    KeyEvent::plain(code)
}

#[test]
fn navigation_keys() {
    assert!(key_match(&key(KeyCode::Char('j')), KeyAction::MoveDown));
    assert!(key_match(&key(KeyCode::Down), KeyAction::MoveDown));
    assert!(!key_match(&key(KeyCode::Char('j')), KeyAction::MoveUp));
    assert!(key_match(&key(KeyCode::Char('k')), KeyAction::MoveUp));
    assert!(key_match(&key(KeyCode::Up), KeyAction::MoveUp));
    assert!(key_match(&key(KeyCode::Char('h')), KeyAction::MoveLeft));
    assert!(key_match(&key(KeyCode::Left), KeyAction::MoveLeft));
    assert!(key_match(&key(KeyCode::Char('l')), KeyAction::MoveRight));
    assert!(key_match(&key(KeyCode::Right), KeyAction::MoveRight));
    assert!(key_match(&key(KeyCode::PageUp), KeyAction::PageUp));
    assert!(key_match(&key(KeyCode::Char('K')), KeyAction::PageUp));
    assert!(key_match(&key(KeyCode::PageDown), KeyAction::PageDown));
    assert!(key_match(&key(KeyCode::Char('J')), KeyAction::PageDown));
    assert!(key_match(&key(KeyCode::Home), KeyAction::Home));
    assert!(key_match(&key(KeyCode::Char('g')), KeyAction::Home));
    assert!(key_match(&key(KeyCode::End), KeyAction::End));
    assert!(key_match(&key(KeyCode::Char('G')), KeyAction::End));
}

#[test]
fn action_keys() {
    assert!(key_match(&key(KeyCode::Enter), KeyAction::Enter));
    assert!(key_match(&key(KeyCode::Esc), KeyAction::Escape));
    assert!(key_match(&key(KeyCode::Char('q')), KeyAction::Quit));
    assert!(!key_match(&key(KeyCode::Char('q')), KeyAction::Commit));
    assert!(key_match(&key(KeyCode::Char(' ')), KeyAction::ToggleStage));
    assert!(key_match(&key(KeyCode::Char('A')), KeyAction::StageAll));
    assert!(key_match(&key(KeyCode::Char('U')), KeyAction::UnstageAll));
    // lowercase a/u keep their own actions, no overlap with A/U
    assert!(!key_match(&key(KeyCode::Char('a')), KeyAction::StageAll));
    assert!(!key_match(&key(KeyCode::Char('u')), KeyAction::UnstageAll));
    assert!(key_match(&key(KeyCode::Char('a')), KeyAction::AddFiles));
    assert!(key_match(&key(KeyCode::Char('r')), KeyAction::RevertFiles));
    assert!(key_match(
        &key(KeyCode::Char('x')),
        KeyAction::ResolveConflict
    ));
    assert!(key_match(&key(KeyCode::Char('c')), KeyAction::Commit));
    assert!(key_match(&key(KeyCode::Char('u')), KeyAction::UpdateWc));
    assert!(key_match(&key(KeyCode::Char('d')), KeyAction::DiffFull));
    assert!(key_match(&key(KeyCode::Char('b')), KeyAction::Blame));
    assert!(key_match(&key(KeyCode::Char('/')), KeyAction::Filter));
    assert!(key_match(&key(KeyCode::F(5)), KeyAction::Refresh));
    assert!(key_match(&key(KeyCode::Char('R')), KeyAction::Refresh));
    assert!(key_match(
        &key(KeyCode::Char('1')),
        KeyAction::SwitchTabStatus
    ));
    assert!(key_match(&key(KeyCode::Char('2')), KeyAction::SwitchTabLog));
    assert!(key_match(&key(KeyCode::Char('?')), KeyAction::Help));
    assert!(key_match(&key(KeyCode::Char('y')), KeyAction::Confirm));
    assert!(key_match(&key(KeyCode::Char('Y')), KeyAction::Confirm));
    assert!(key_match(&key(KeyCode::Char('n')), KeyAction::Deny));
    assert!(key_match(&key(KeyCode::Esc), KeyAction::ClosePopup));
    assert!(key_match(
        &key(KeyCode::Char('o')),
        KeyAction::UpdateToRevision
    ));
    assert!(key_match(&key(KeyCode::Enter), KeyAction::OpenRevisionDiff));
    assert!(key_match(
        &key(KeyCode::Char('d')),
        KeyAction::OpenRevisionDiff
    ));
    assert!(key_match(&key(KeyCode::Char('t')), KeyAction::FileHistory));
    let ctrl_p = KeyEvent { code: KeyCode::Char('p'), ctrl: true, alt: false, shift: false };
    assert!(key_match(&ctrl_p, KeyAction::OpenFileFinder));
    // plain 'p' must not open the finder
    assert!(!key_match(
        &key(KeyCode::Char('p')),
        KeyAction::OpenFileFinder
    ));
    assert!(key_match(&key(KeyCode::Char(' ')), KeyAction::ToggleMark));
    assert!(key_match(
        &key(KeyCode::Char('v')),
        KeyAction::ViewCommitInfo
    ));
    // 'v' must not clash with other log-tab actions
    assert!(!key_match(&key(KeyCode::Char('v')), KeyAction::Blame));
    assert!(!key_match(&key(KeyCode::Char('v')), KeyAction::Quit));
    // finder blame is Ctrl+b; plain 'b' is query text there
    let ctrl_b = KeyEvent { code: KeyCode::Char('b'), ctrl: true, alt: false, shift: false };
    assert!(key_match(&ctrl_b, KeyAction::BlameFileFinder));
    assert!(!key_match(
        &key(KeyCode::Char('b')),
        KeyAction::BlameFileFinder
    ));
    // ... and plain 'b' stays the regular blame action elsewhere
    assert!(key_match(&key(KeyCode::Char('b')), KeyAction::Blame));
    assert!(!key_match(&ctrl_b, KeyAction::Blame));
    // patch management keys
    assert!(key_match(&key(KeyCode::Char('P')), KeyAction::SavePatch));
    assert!(!key_match(&key(KeyCode::Char('p')), KeyAction::SavePatch));
    assert!(key_match(
        &key(KeyCode::Char('3')),
        KeyAction::SwitchTabPatches
    ));
    assert!(key_match(&key(KeyCode::Char('p')), KeyAction::PreviewPatch));
    assert!(key_match(&key(KeyCode::Char('a')), KeyAction::ApplyPatch));
    assert!(key_match(&key(KeyCode::Char('d')), KeyAction::DeletePatch));
    // 'p' must not clash with the finder (Ctrl+p) or the save key
    assert!(!key_match(&ctrl_p, KeyAction::PreviewPatch));
    assert!(!key_match(&ctrl_p, KeyAction::SavePatch));
}

#[test]
fn tab_and_commit_confirm() {
    assert!(key_match(&key(KeyCode::Tab), KeyAction::FocusNext));
    let shift_tab = KeyEvent { code: KeyCode::BackTab, ctrl: false, alt: false, shift: true };
    assert!(key_match(&shift_tab, KeyAction::FocusPrev));
    // Enter commits (no shift)
    assert!(key_match(&key(KeyCode::Enter), KeyAction::CommitConfirm));
    // Ctrl+s commits
    let ctrl_s = KeyEvent { code: KeyCode::Char('s'), ctrl: true, alt: false, shift: false };
    assert!(key_match(&ctrl_s, KeyAction::CommitConfirm));
    // plain 's' does not
    assert!(!key_match(
        &key(KeyCode::Char('s')),
        KeyAction::CommitConfirm
    ));
    // ctrl-modified letters are rejected by plain char matches
    let ctrl_j = KeyEvent { code: KeyCode::Char('j'), ctrl: true, alt: false, shift: false };
    assert!(!key_match(&ctrl_j, KeyAction::MoveDown));
}

#[test]
fn modifier_hygiene() {
    // Alt+letter must not trigger bare-letter actions
    let alt_q = KeyEvent { code: KeyCode::Char('q'), ctrl: false, alt: true, shift: false };
    assert!(!key_match(&alt_q, KeyAction::Quit));
    let alt_c = KeyEvent { code: KeyCode::Char('c'), ctrl: false, alt: true, shift: false };
    assert!(!key_match(&alt_c, KeyAction::Commit));
    // Ctrl+Enter / Alt+Enter must not commit
    let ctrl_enter = KeyEvent { code: KeyCode::Enter, ctrl: true, alt: false, shift: false };
    assert!(!key_match(&ctrl_enter, KeyAction::CommitConfirm));
    let alt_enter = KeyEvent { code: KeyCode::Enter, ctrl: false, alt: true, shift: false };
    assert!(!key_match(&alt_enter, KeyAction::CommitConfirm));
    // Shift stays tolerated for letters (caps-lock style typing)
    let shift_a = KeyEvent { code: KeyCode::Char('a'), ctrl: false, alt: false, shift: true };
    assert!(key_match(&shift_a, KeyAction::AddFiles));
    assert!(key_match(&shift_a, KeyAction::ApplyPatch));
    let shift_d = KeyEvent { code: KeyCode::Char('d'), ctrl: false, alt: false, shift: true };
    assert!(key_match(&shift_d, KeyAction::DiffFull));
    // Ctrl+d/u scroll the detail pane; plain d/u do not
    let ctrl_d = KeyEvent { code: KeyCode::Char('d'), ctrl: true, alt: false, shift: false };
    let ctrl_u = KeyEvent { code: KeyCode::Char('u'), ctrl: true, alt: false, shift: false };
    assert!(key_match(&ctrl_d, KeyAction::DetailScrollDown));
    assert!(key_match(&ctrl_u, KeyAction::DetailScrollUp));
    assert!(!key_match(
        &key(KeyCode::Char('d')),
        KeyAction::DetailScrollDown
    ));
    assert!(!key_match(
        &key(KeyCode::Char('u')),
        KeyAction::DetailScrollUp
    ));
    assert!(!key_match(&ctrl_d, KeyAction::DetailScrollUp));
    // ... and the Ctrl combos don't fire the plain-letter actions
    assert!(!key_match(&ctrl_d, KeyAction::DiffFull));
    assert!(!key_match(&ctrl_u, KeyAction::UpdateWc));
}

#[test]
fn bindings_list_is_nonempty_and_sorted_ok() {
    let groups = all_binding_groups();
    assert!(groups.len() >= 5);
    for g in &groups {
        assert!(!g.title.is_empty());
        assert!(!g.bindings.is_empty());
        for b in &g.bindings {
            assert!(!b.keys.is_empty());
            assert!(!b.description.is_empty());
        }
    }
}


#[test]
fn binding_new_keeps_text() {
    let b = KeyBinding::new("j / k", "Move");
    assert_eq!(b.keys, "j / k");
    assert_eq!(b.description, "Move");
}

#[test]
fn binding_group_titles() {
    let titles: Vec<&str> = all_binding_groups().iter().map(|g| g.title).collect();
    assert_eq!(titles, vec!["Global", "Status tab", "Log tab", "Patches tab", "Popups"]);
}

#[test]
fn function_and_other_keys() {
    assert!(!key_match(&key(KeyCode::F(4)), KeyAction::Refresh));
    assert!(!key_match(&key(KeyCode::Other), KeyAction::Quit));
    let shift_tab = KeyEvent { code: KeyCode::Tab, ctrl: false, alt: false, shift: true };
    assert!(key_match(&shift_tab, KeyAction::FocusPrev));
    assert!(!key_match(&shift_tab, KeyAction::FocusNext));
    let shift_enter = KeyEvent { code: KeyCode::Enter, ctrl: false, alt: false, shift: true };
    assert!(!key_match(&shift_enter, KeyAction::CommitConfirm));
}
