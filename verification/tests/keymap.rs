//! Which key does what.
use ratwarren::app::keymap::{
    map_key, AppCommand, GridCommand, KeyCode, KeyEvent, KeyModifiers, RunKey, TreeCommand,
};
use ratwarren::app::Focus;
use ratwarren::editor::{EditorCommand, Motion};


fn key(code: KeyCode) -> KeyEvent {
    KeyEvent::new(code, KeyModifiers::Plain)
}

fn ctrl_key(code: KeyCode) -> KeyEvent {
    KeyEvent::new(code, KeyModifiers::Control)
}

#[test]
fn same_key_dispatches_to_tree_or_grid_depending_on_focus() {
    assert!(matches!(
        map_key(key(KeyCode::Up), Focus::Tree),
        Some(AppCommand::Tree(TreeCommand::MoveUp))
    ));
    assert!(matches!(
        map_key(key(KeyCode::Up), Focus::Grid),
        Some(AppCommand::Grid(GridCommand::MoveUp))
    ));
}

#[test]
fn next_and_prev_page_keys_are_grid_only() {
    assert!(matches!(
        map_key(key(KeyCode::Char('n')), Focus::Grid),
        Some(AppCommand::Grid(GridCommand::NextPage))
    ));
    assert!(
        map_key(key(KeyCode::Char('n')), Focus::Tree).is_none(),
        "'n' has no tree-focused meaning and must not fall through to some other command"
    );
    assert!(matches!(
        map_key(key(KeyCode::Char('p')), Focus::Grid),
        Some(AppCommand::Grid(GridCommand::PrevPage))
    ));
    assert!(map_key(key(KeyCode::Char('p')), Focus::Tree).is_none());
}

#[test]
fn enter_only_activates_in_tree_focus() {
    assert!(matches!(
        map_key(key(KeyCode::Enter), Focus::Tree),
        Some(AppCommand::Activate)
    ));
    assert!(
        map_key(key(KeyCode::Enter), Focus::Grid).is_none(),
        "Enter has no grid-focused binding"
    );
}

#[test]
fn esc_only_returns_to_tree_when_grid_is_focused() {
    assert!(matches!(
        map_key(key(KeyCode::Esc), Focus::Grid),
        Some(AppCommand::FocusTree)
    ));
    assert!(
        map_key(key(KeyCode::Esc), Focus::Tree).is_none(),
        "Esc is a no-op while already focused on the tree"
    );
}

#[test]
fn tab_toggles_focus_regardless_of_focus() {
    for focus in [Focus::Tree, Focus::Grid, Focus::Editor] {
        assert!(matches!(
            map_key(key(KeyCode::Tab), focus),
            Some(AppCommand::ToggleFocus)
        ));
    }
}

#[test]
fn q_only_quits_outside_the_editor() {
    for focus in [Focus::Tree, Focus::Grid] {
        assert!(matches!(
            map_key(key(KeyCode::Char('q')), focus),
            Some(AppCommand::Quit)
        ));
    }
    assert!(matches!(
        map_key(key(KeyCode::Char('q')), Focus::Editor),
        Some(AppCommand::Editor(EditorCommand::Insert('q')))
    ));
}

#[test]
fn ctrl_c_is_cancel_or_quit_regardless_of_focus() {
    for focus in [Focus::Tree, Focus::Grid, Focus::Editor] {
        assert!(matches!(
            map_key(
                KeyEvent::new(KeyCode::Char('c'), KeyModifiers::Control),
                focus
            ),
            Some(AppCommand::CancelOrQuit)
        ));
    }
}

#[test]
fn ctrl_r_and_ctrl_e_run_regardless_of_focus() {
    for focus in [Focus::Tree, Focus::Grid, Focus::Editor] {
        assert!(matches!(
            map_key(
                KeyEvent::new(KeyCode::Char('r'), KeyModifiers::Control),
                focus
            ),
            Some(AppCommand::Run(RunKey::CursorOrSelection))
        ));
        assert!(matches!(
            map_key(
                KeyEvent::new(KeyCode::Char('e'), KeyModifiers::Control),
                focus
            ),
            Some(AppCommand::Run(RunKey::Buffer))
        ));
    }
}

#[test]
fn editor_focus_inserts_printable_characters() {
    assert!(matches!(
        map_key(key(KeyCode::Char('x')), Focus::Editor),
        Some(AppCommand::Editor(EditorCommand::Insert('x')))
    ));
}

#[test]
fn editor_focus_shift_arrow_extends_selection() {
    assert!(matches!(
        map_key(
            KeyEvent::new(KeyCode::Left, KeyModifiers::Shift),
            Focus::Editor
        ),
        Some(AppCommand::Editor(EditorCommand::Left(Motion::Extend)))
    ));
    assert!(matches!(
        map_key(key(KeyCode::Left), Focus::Editor),
        Some(AppCommand::Editor(EditorCommand::Left(Motion::Move)))
    ));
}

#[test]
fn tab_management_keys_map_regardless_of_focus() {
    for focus in [Focus::Tree, Focus::Grid, Focus::Editor] {
        assert!(
            matches!(
                map_key(ctrl_key(KeyCode::Char('t')), focus),
                Some(AppCommand::OpenPicker)
            ),
            "Ctrl+T must open the picker in {focus:?}"
        );
        assert!(
            matches!(
                map_key(ctrl_key(KeyCode::Char('w')), focus),
                Some(AppCommand::CloseTab)
            ),
            "Ctrl+W must close the tab in {focus:?}"
        );
        assert!(
            matches!(
                map_key(ctrl_key(KeyCode::Char('n')), focus),
                Some(AppCommand::NextTab)
            ),
            "Ctrl+N must switch to the next tab in {focus:?}"
        );
        assert!(
            matches!(
                map_key(ctrl_key(KeyCode::Char('p')), focus),
                Some(AppCommand::PrevTab)
            ),
            "Ctrl+P must switch to the previous tab in {focus:?}"
        );
    }
}

#[test]
fn tab_management_letters_without_ctrl_still_insert_in_editor_focus() {
    for c in ['t', 'w', 'n', 'p'] {
        assert!(
            matches!(
                map_key(key(KeyCode::Char(c)), Focus::Editor),
                Some(AppCommand::Editor(EditorCommand::Insert(got))) if got == c
            ),
            "bare {c:?} in Focus::Editor must insert, not be captured by tab management"
        );
    }
}

#[test]
fn editor_focus_esc_clears_selection_instead_of_focus_tree() {
    assert!(matches!(
        map_key(key(KeyCode::Esc), Focus::Editor),
        Some(AppCommand::Editor(EditorCommand::ClearSelection))
    ));
}
