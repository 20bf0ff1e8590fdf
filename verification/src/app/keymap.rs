//! Which key does what, in which pane.
use super::Focus;
use crate::editor::{EditorCommand, Motion};
use vstd::prelude::*;

verus! {

/// A key, as far as the application tells keys apart.
#[derive(Debug, Clone, Copy, PartialEq, Eq, Structural)]
pub enum KeyCode {
    Char(char),
    Enter,
    Tab,
    Esc,
    Backspace,
    Delete,
    Left,
    Right,
    Up,
    Down,
    Home,
    End,
    PageUp,
    PageDown,
    Other,
}

/// The modifiers that are held: none, exactly one of two, or anything else.
#[derive(Debug, Clone, Copy, PartialEq, Eq, Structural)]
pub enum KeyModifiers {
    Plain,
    Shift,
    Control,
    Other,
}

/// A key press.
#[derive(Debug, Clone, Copy, PartialEq, Eq, Structural)]
pub struct KeyEvent {
    pub code: KeyCode,
    pub modifiers: KeyModifiers,
}

impl KeyEvent {
    pub fn new(code: KeyCode, modifiers: KeyModifiers) -> (k: KeyEvent)
        ensures
            k == (KeyEvent { code, modifiers }),
    {
        KeyEvent { code, modifiers }
    }
}

/// What a key does in the object tree.
#[derive(Debug, Clone, Copy, PartialEq, Eq, Structural)]
pub enum TreeCommand {
    MoveUp,
    MoveDown,
    Expand,
    Collapse,
    PageUp,
    PageDown,
    First,
    Last,
    Refresh,
    ToggleSystemSchemas,
    Toggle,
}

/// What a key does in the data grid.
#[derive(Debug, Clone, Copy, PartialEq, Eq, Structural)]
pub enum GridCommand {
    MoveUp,
    MoveDown,
    PageUp,
    PageDown,
    First,
    Last,
    ScrollLeft,
    ScrollRight,
    NextPage,
    PrevPage,
    Refresh,
}

/// What a key does.
#[derive(Debug, Clone, Copy, PartialEq, Eq, Structural)]
pub enum AppCommand {
    Quit,
    ToggleFocus,
    FocusTree,
    Activate,
    Tree(TreeCommand),
    Grid(GridCommand),
    Editor(EditorCommand),
    Run(RunKey),
    CancelOrQuit,
    OpenPicker,
    CloseTab,
    NextTab,
    PrevTab,
}

/// What is to be run.
#[derive(Debug, Clone, Copy, PartialEq, Eq, Structural)]
pub enum RunKey {
    CursorOrSelection,
    Buffer,
}

/// What a key with Control does in every pane.
pub open spec fn control_binding(c: char) -> Option<AppCommand> {
    if c == 'c' {
        Some(AppCommand::CancelOrQuit)
    } else if c == 'r' {
        Some(AppCommand::Run(RunKey::CursorOrSelection))
    } else if c == 'e' {
        Some(AppCommand::Run(RunKey::Buffer))
    } else if c == 't' {
        Some(AppCommand::OpenPicker)
    } else if c == 'w' {
        Some(AppCommand::CloseTab)
    } else if c == 'n' {
        Some(AppCommand::NextTab)
    } else if c == 'p' {
        Some(AppCommand::PrevTab)
    } else {
        None
    }
}

/// What a key does before the pane is asked.
pub open spec fn global_binding(key: KeyEvent, focus: Focus) -> Option<AppCommand> {
    match key.code {
        KeyCode::Tab => Some(AppCommand::ToggleFocus),
        KeyCode::Esc => if focus == Focus::Grid {
            Some(AppCommand::FocusTree)
        } else {
            None
        },
        KeyCode::Char(c) => if key.modifiers == KeyModifiers::Control {
            control_binding(c)
        } else {
            None
        },
        _ => None,
    }
}

/// What a key does in the tree.
pub open spec fn tree_binding(code: KeyCode) -> Option<AppCommand> {
    match code {
        KeyCode::Up => Some(AppCommand::Tree(TreeCommand::MoveUp)),
        KeyCode::Down => Some(AppCommand::Tree(TreeCommand::MoveDown)),
        KeyCode::Right => Some(AppCommand::Tree(TreeCommand::Expand)),
        KeyCode::Left => Some(AppCommand::Tree(TreeCommand::Collapse)),
        KeyCode::Enter => Some(AppCommand::Activate),
        KeyCode::PageUp => Some(AppCommand::Tree(TreeCommand::PageUp)),
        KeyCode::PageDown => Some(AppCommand::Tree(TreeCommand::PageDown)),
        KeyCode::Home => Some(AppCommand::Tree(TreeCommand::First)),
        KeyCode::End => Some(AppCommand::Tree(TreeCommand::Last)),
        KeyCode::Char(c) => if c == 'q' {
            Some(AppCommand::Quit)
        } else if c == 'k' {
            Some(AppCommand::Tree(TreeCommand::MoveUp))
        } else if c == 'j' {
            Some(AppCommand::Tree(TreeCommand::MoveDown))
        } else if c == 'l' {
            Some(AppCommand::Tree(TreeCommand::Expand))
        } else if c == 'h' {
            Some(AppCommand::Tree(TreeCommand::Collapse))
        } else if c == 'g' {
            Some(AppCommand::Tree(TreeCommand::First))
        } else if c == 'G' {
            Some(AppCommand::Tree(TreeCommand::Last))
        } else if c == 'r' {
            Some(AppCommand::Tree(TreeCommand::Refresh))
        } else if c == '.' {
            Some(AppCommand::Tree(TreeCommand::ToggleSystemSchemas))
        } else {
            None
        },
        _ => None,
    }
}

/// What a key does in the grid.
pub open spec fn grid_binding(code: KeyCode) -> Option<AppCommand> {
    match code {
        KeyCode::Up => Some(AppCommand::Grid(GridCommand::MoveUp)),
        KeyCode::Down => Some(AppCommand::Grid(GridCommand::MoveDown)),
        KeyCode::PageUp => Some(AppCommand::Grid(GridCommand::PageUp)),
        KeyCode::PageDown => Some(AppCommand::Grid(GridCommand::PageDown)),
        KeyCode::Home => Some(AppCommand::Grid(GridCommand::First)),
        KeyCode::End => Some(AppCommand::Grid(GridCommand::Last)),
        KeyCode::Left => Some(AppCommand::Grid(GridCommand::ScrollLeft)),
        KeyCode::Right => Some(AppCommand::Grid(GridCommand::ScrollRight)),
        KeyCode::Char(c) => if c == 'q' {
            Some(AppCommand::Quit)
        } else if c == 'k' {
            Some(AppCommand::Grid(GridCommand::MoveUp))
        } else if c == 'j' {
            Some(AppCommand::Grid(GridCommand::MoveDown))
        } else if c == 'g' {
            Some(AppCommand::Grid(GridCommand::First))
        } else if c == 'G' {
            Some(AppCommand::Grid(GridCommand::Last))
        } else if c == 'h' {
            Some(AppCommand::Grid(GridCommand::ScrollLeft))
        } else if c == 'l' {
            Some(AppCommand::Grid(GridCommand::ScrollRight))
        } else if c == 'n' {
            Some(AppCommand::Grid(GridCommand::NextPage))
        } else if c == 'p' {
            Some(AppCommand::Grid(GridCommand::PrevPage))
        } else if c == 'r' {
            Some(AppCommand::Grid(GridCommand::Refresh))
        } else {
            None
        },
        _ => None,
    }
}

/// Shift extends the selection, anything else moves.
pub open spec fn motion_of(modifiers: KeyModifiers) -> Motion {
    if modifiers == KeyModifiers::Shift {
        Motion::Extend
    } else {
        Motion::Move
    }
}

/// What a key does in the editor.
pub open spec fn editor_binding(key: KeyEvent) -> Option<EditorCommand> {
    match key.code {
        KeyCode::Char(c) => match key.modifiers {
            KeyModifiers::Plain => Some(EditorCommand::Insert(c)),
            KeyModifiers::Shift => Some(EditorCommand::Insert(c)),
            KeyModifiers::Control => if c == 'a' {
                Some(EditorCommand::SelectAll)
            } else {
                None
            },
            KeyModifiers::Other => None,
        },
        KeyCode::Enter => Some(EditorCommand::Newline),
        KeyCode::Backspace => Some(EditorCommand::DeleteBackward),
        KeyCode::Delete => Some(EditorCommand::DeleteForward),
        KeyCode::Left => Some(EditorCommand::Left(motion_of(key.modifiers))),
        KeyCode::Right => Some(EditorCommand::Right(motion_of(key.modifiers))),
        KeyCode::Up => Some(EditorCommand::Up(motion_of(key.modifiers))),
        KeyCode::Down => Some(EditorCommand::Down(motion_of(key.modifiers))),
        KeyCode::Home => if key.modifiers == KeyModifiers::Control {
            Some(EditorCommand::BufferStart(Motion::Move))
        } else {
            Some(EditorCommand::LineStart(Motion::Move))
        },
        KeyCode::End => if key.modifiers == KeyModifiers::Control {
            Some(EditorCommand::BufferEnd(Motion::Move))
        } else {
            Some(EditorCommand::LineEnd(Motion::Move))
        },
        KeyCode::Esc => Some(EditorCommand::ClearSelection),
        _ => None,
    }
}

/// What a key does in a pane.
pub open spec fn binding(key: KeyEvent, focus: Focus) -> Option<AppCommand> {
    if global_binding(key, focus) is Some {
        global_binding(key, focus)
    } else {
        match focus {
            Focus::Tree => tree_binding(key.code),
            Focus::Grid => grid_binding(key.code),
            Focus::Editor => match editor_binding(key) {
                Some(cmd) => Some(AppCommand::Editor(cmd)),
                None => None,
            },
        }
    }
}

/// Tab, and the keys that run, cancel and switch tabs, do the same in every pane.
pub proof fn law_global_keys_work_everywhere(key: KeyEvent, a: Focus, b: Focus)
    requires
        key.code == KeyCode::Tab || (key.modifiers == KeyModifiers::Control && (key.code matches
            KeyCode::Char(c) && control_binding(c) is Some)),
    ensures
        binding(key, a) is Some,
        binding(key, a) == binding(key, b),
{
}

/// In the editor a character that is typed is inserted, whatever it does elsewhere: it neither
/// quits nor moves.
pub proof fn law_typing_inserts(c: char, modifiers: KeyModifiers)
    requires
        modifiers == KeyModifiers::Plain || modifiers == KeyModifiers::Shift,
    ensures
        binding(KeyEvent { code: KeyCode::Char(c), modifiers }, Focus::Editor) == Some(
            AppCommand::Editor(EditorCommand::Insert(c)),
        ),
{
}

/// No key quits at once from the editor.
pub proof fn law_editor_never_quits(key: KeyEvent)
    ensures
        binding(key, Focus::Editor) != Some(AppCommand::Quit),
{
}

/// Whether a key is anything but a character with Control.
pub open spec fn pressed_alone(code: KeyCode, modifiers: KeyModifiers) -> bool {
    !(modifiers == KeyModifiers::Control && code is Char)
}

/// Outside the editor letters stand for the keys that move: `k` and `j` for up and down, `h` and `l`
/// for left and right, `g` and `G` for the first and the last place.
pub proof fn law_letters_stand_for_arrows(focus: Focus, m: KeyModifiers, n: KeyModifiers)
    requires
        focus == Focus::Tree || focus == Focus::Grid,
        m != KeyModifiers::Control,
    ensures
        binding(KeyEvent { code: KeyCode::Char('k'), modifiers: m }, focus) == binding(
            KeyEvent { code: KeyCode::Up, modifiers: n },
            focus,
        ),
        binding(KeyEvent { code: KeyCode::Char('j'), modifiers: m }, focus) == binding(
            KeyEvent { code: KeyCode::Down, modifiers: n },
            focus,
        ),
        binding(KeyEvent { code: KeyCode::Char('h'), modifiers: m }, focus) == binding(
            KeyEvent { code: KeyCode::Left, modifiers: n },
            focus,
        ),
        binding(KeyEvent { code: KeyCode::Char('l'), modifiers: m }, focus) == binding(
            KeyEvent { code: KeyCode::Right, modifiers: n },
            focus,
        ),
        binding(KeyEvent { code: KeyCode::Char('g'), modifiers: m }, focus) == binding(
            KeyEvent { code: KeyCode::Home, modifiers: n },
            focus,
        ),
        binding(KeyEvent { code: KeyCode::Char('G'), modifiers: m }, focus) == binding(
            KeyEvent { code: KeyCode::End, modifiers: n },
            focus,
        ),
        binding(KeyEvent { code: KeyCode::Char('q'), modifiers: m }, focus) == Some(
            AppCommand::Quit,
        ),
{
}

/// The key, apart from letters, that a command of the tree is bound to.
pub open spec fn tree_key(c: TreeCommand) -> KeyCode {
    match c {
        TreeCommand::MoveUp => KeyCode::Up,
        TreeCommand::MoveDown => KeyCode::Down,
        TreeCommand::Expand => KeyCode::Right,
        TreeCommand::Collapse => KeyCode::Left,
        TreeCommand::PageUp => KeyCode::PageUp,
        TreeCommand::PageDown => KeyCode::PageDown,
        TreeCommand::First => KeyCode::Home,
        TreeCommand::Last => KeyCode::End,
        TreeCommand::Refresh => KeyCode::Char('r'),
        TreeCommand::ToggleSystemSchemas => KeyCode::Char('.'),
        TreeCommand::Toggle => KeyCode::Other,
    }
}

/// The key, apart from letters, that a command of the grid is bound to.
pub open spec fn grid_key(c: GridCommand) -> KeyCode {
    match c {
        GridCommand::MoveUp => KeyCode::Up,
        GridCommand::MoveDown => KeyCode::Down,
        GridCommand::PageUp => KeyCode::PageUp,
        GridCommand::PageDown => KeyCode::PageDown,
        GridCommand::First => KeyCode::Home,
        GridCommand::Last => KeyCode::End,
        GridCommand::ScrollLeft => KeyCode::Left,
        GridCommand::ScrollRight => KeyCode::Right,
        GridCommand::NextPage => KeyCode::Char('n'),
        GridCommand::PrevPage => KeyCode::Char('p'),
        GridCommand::Refresh => KeyCode::Char('r'),
    }
}

/// The letter that stands for a key that moves.
pub open spec fn letter_for(code: KeyCode) -> Option<char> {
    match code {
        KeyCode::Up => Some('k'),
        KeyCode::Down => Some('j'),
        KeyCode::Left => Some('h'),
        KeyCode::Right => Some('l'),
        KeyCode::Home => Some('g'),
        KeyCode::End => Some('G'),
        _ => None,
    }
}

/// In the tree and the grid a command comes of its own key, or of the letter that stands for that, and
/// of no other.
pub proof fn law_each_command_has_its_key(key: KeyEvent, t: TreeCommand, g: GridCommand)
    requires
        pressed_alone(key.code, key.modifiers),
    ensures
        t != TreeCommand::Toggle ==> (binding(key, Focus::Tree) == Some(AppCommand::Tree(t)) <==> {
            ||| key.code == tree_key(t)
            ||| key.code matches KeyCode::Char(c) && letter_for(tree_key(t)) == Some(c)
        }),
        binding(key, Focus::Grid) == Some(AppCommand::Grid(g)) <==> {
            ||| key.code == grid_key(g)
            ||| key.code matches KeyCode::Char(c) && letter_for(grid_key(g)) == Some(c)
        },
        binding(key, Focus::Tree) == Some(AppCommand::Activate) <==> key.code == KeyCode::Enter,
        binding(key, Focus::Grid) == Some(AppCommand::FocusTree) <==> key.code == KeyCode::Esc,
        !(binding(key, Focus::Tree) matches Some(c) && c is Grid),
        !(binding(key, Focus::Grid) matches Some(c) && c is Tree),
{
}

/// With Control a letter does one thing in every pane: `c` cancels or quits, `r` runs what the cursor
/// stands on or what is selected, `e` the whole page, `t` opens the picker, `w` closes the tab, `n` and
/// `p` go to the next and the previous one.
pub proof fn law_control_keys(c: char, focus: Focus)
    ensures
        ({
            let b = binding(
                KeyEvent { code: KeyCode::Char(c), modifiers: KeyModifiers::Control },
                focus,
            );
            &&& b == Some(AppCommand::CancelOrQuit) <==> c == 'c'
            &&& b == Some(AppCommand::Run(RunKey::CursorOrSelection)) <==> c == 'r'
            &&& b == Some(AppCommand::Run(RunKey::Buffer)) <==> c == 'e'
            &&& b == Some(AppCommand::OpenPicker) <==> c == 't'
            &&& b == Some(AppCommand::CloseTab) <==> c == 'w'
            &&& b == Some(AppCommand::NextTab) <==> c == 'n'
            &&& b == Some(AppCommand::PrevTab) <==> c == 'p'
            &&& focus == Focus::Editor ==> (b == Some(AppCommand::Editor(EditorCommand::SelectAll))
                <==> c == 'a')
            &&& !(b matches Some(cmd) && (cmd matches AppCommand::Editor(e) && e is Insert))
        }),
{
}

/// In the editor the keys that move do so in their direction: with Shift they extend the selection,
/// else they do not. Home and End stay in the line, or with Control go to the ends of the text.
pub proof fn law_editor_keys_move_in_their_direction(modifiers: KeyModifiers)
    ensures
        ({
            let m = if modifiers == KeyModifiers::Shift {
                Motion::Extend
            } else {
                Motion::Move
            };
            let does = |code: KeyCode| binding(KeyEvent { code, modifiers }, Focus::Editor);
            &&& does(KeyCode::Left) == Some(AppCommand::Editor(EditorCommand::Left(m)))
            &&& does(KeyCode::Right) == Some(AppCommand::Editor(EditorCommand::Right(m)))
            &&& does(KeyCode::Up) == Some(AppCommand::Editor(EditorCommand::Up(m)))
            &&& does(KeyCode::Down) == Some(AppCommand::Editor(EditorCommand::Down(m)))
            &&& does(KeyCode::Home) == Some(
                AppCommand::Editor(
                    if modifiers == KeyModifiers::Control {
                        EditorCommand::BufferStart(Motion::Move)
                    } else {
                        EditorCommand::LineStart(Motion::Move)
                    },
                ),
            )
            &&& does(KeyCode::End) == Some(
                AppCommand::Editor(
                    if modifiers == KeyModifiers::Control {
                        EditorCommand::BufferEnd(Motion::Move)
                    } else {
                        EditorCommand::LineEnd(Motion::Move)
                    },
                ),
            )
            &&& does(KeyCode::Enter) == Some(AppCommand::Editor(EditorCommand::Newline))
            &&& does(KeyCode::Backspace) == Some(AppCommand::Editor(EditorCommand::DeleteBackward))
            &&& does(KeyCode::Delete) == Some(AppCommand::Editor(EditorCommand::DeleteForward))
            &&& does(KeyCode::Esc) == Some(AppCommand::Editor(EditorCommand::ClearSelection))
            &&& does(KeyCode::Tab) == Some(AppCommand::ToggleFocus)
        }),
{
}

fn motion(modifiers: KeyModifiers) -> (m: Motion)
    ensures
        m == motion_of(modifiers),
{
    match modifiers {
        KeyModifiers::Shift => Motion::Extend,
        _ => Motion::Move,
    }
}

fn map_control(c: char) -> (cmd: Option<AppCommand>)
    ensures
        cmd == control_binding(c),
{
    match c {
        'c' => Some(AppCommand::CancelOrQuit),
        'r' => Some(AppCommand::Run(RunKey::CursorOrSelection)),
        'e' => Some(AppCommand::Run(RunKey::Buffer)),
        't' => Some(AppCommand::OpenPicker),
        'w' => Some(AppCommand::CloseTab),
        'n' => Some(AppCommand::NextTab),
        'p' => Some(AppCommand::PrevTab),
        _ => None,
    }
}

fn map_tree(code: KeyCode) -> (cmd: Option<AppCommand>)
    ensures
        cmd == tree_binding(code),
{
    match code {
        KeyCode::Char('q') => Some(AppCommand::Quit),
        KeyCode::Up | KeyCode::Char('k') => Some(AppCommand::Tree(TreeCommand::MoveUp)),
        KeyCode::Down | KeyCode::Char('j') => Some(AppCommand::Tree(TreeCommand::MoveDown)),
        KeyCode::Right | KeyCode::Char('l') => Some(AppCommand::Tree(TreeCommand::Expand)),
        KeyCode::Left | KeyCode::Char('h') => Some(AppCommand::Tree(TreeCommand::Collapse)),
        KeyCode::Enter => Some(AppCommand::Activate),
        KeyCode::PageUp => Some(AppCommand::Tree(TreeCommand::PageUp)),
        KeyCode::PageDown => Some(AppCommand::Tree(TreeCommand::PageDown)),
        KeyCode::Home | KeyCode::Char('g') => Some(AppCommand::Tree(TreeCommand::First)),
        KeyCode::End | KeyCode::Char('G') => Some(AppCommand::Tree(TreeCommand::Last)),
        KeyCode::Char('r') => Some(AppCommand::Tree(TreeCommand::Refresh)),
        KeyCode::Char('.') => Some(AppCommand::Tree(TreeCommand::ToggleSystemSchemas)),
        _ => None,
    }
}

fn map_grid(code: KeyCode) -> (cmd: Option<AppCommand>)
    ensures
        cmd == grid_binding(code),
{
    match code {
        KeyCode::Char('q') => Some(AppCommand::Quit),
        KeyCode::Up | KeyCode::Char('k') => Some(AppCommand::Grid(GridCommand::MoveUp)),
        KeyCode::Down | KeyCode::Char('j') => Some(AppCommand::Grid(GridCommand::MoveDown)),
        KeyCode::PageUp => Some(AppCommand::Grid(GridCommand::PageUp)),
        KeyCode::PageDown => Some(AppCommand::Grid(GridCommand::PageDown)),
        KeyCode::Home | KeyCode::Char('g') => Some(AppCommand::Grid(GridCommand::First)),
        KeyCode::End | KeyCode::Char('G') => Some(AppCommand::Grid(GridCommand::Last)),
        KeyCode::Left | KeyCode::Char('h') => Some(AppCommand::Grid(GridCommand::ScrollLeft)),
        KeyCode::Right | KeyCode::Char('l') => Some(AppCommand::Grid(GridCommand::ScrollRight)),
        KeyCode::Char('n') => Some(AppCommand::Grid(GridCommand::NextPage)),
        KeyCode::Char('p') => Some(AppCommand::Grid(GridCommand::PrevPage)),
        KeyCode::Char('r') => Some(AppCommand::Grid(GridCommand::Refresh)),
        _ => None,
    }
}

fn map_editor(key: KeyEvent) -> (cmd: Option<EditorCommand>)
    ensures
        cmd == editor_binding(key),
{
    match (key.code, key.modifiers) {
        (KeyCode::Char(c), KeyModifiers::Plain) | (KeyCode::Char(c), KeyModifiers::Shift) => Some(
            EditorCommand::Insert(c),
        ),
        (KeyCode::Enter, _) => Some(EditorCommand::Newline),
        (KeyCode::Backspace, _) => Some(EditorCommand::DeleteBackward),
        (KeyCode::Delete, _) => Some(EditorCommand::DeleteForward),
        (KeyCode::Left, m) => Some(EditorCommand::Left(motion(m))),
        (KeyCode::Right, m) => Some(EditorCommand::Right(motion(m))),
        (KeyCode::Up, m) => Some(EditorCommand::Up(motion(m))),
        (KeyCode::Down, m) => Some(EditorCommand::Down(motion(m))),
        (KeyCode::Home, KeyModifiers::Control) => Some(EditorCommand::BufferStart(Motion::Move)),
        (KeyCode::Home, _) => Some(EditorCommand::LineStart(Motion::Move)),
        (KeyCode::End, KeyModifiers::Control) => Some(EditorCommand::BufferEnd(Motion::Move)),
        (KeyCode::End, _) => Some(EditorCommand::LineEnd(Motion::Move)),
        (KeyCode::Char('a'), KeyModifiers::Control) => Some(EditorCommand::SelectAll),
        (KeyCode::Esc, _) => Some(EditorCommand::ClearSelection),
        _ => None,
    }
}

/// What a key does in a pane.
pub fn map_key(key: KeyEvent, focus: Focus) -> (cmd: Option<AppCommand>)
    ensures
        cmd == binding(key, focus),
{
    match (key.code, key.modifiers) {
        (KeyCode::Tab, _) => return Some(AppCommand::ToggleFocus),
        (KeyCode::Esc, _) => {
            if focus == Focus::Grid {
                return Some(AppCommand::FocusTree);
            }
        },
        (KeyCode::Char(c), KeyModifiers::Control) => match map_control(c) {
            Some(cmd) => return Some(cmd),
            None => {},
        },
        _ => {},
    }
    match focus {
        Focus::Tree => map_tree(key.code),
        Focus::Grid => map_grid(key.code),
        Focus::Editor => match map_editor(key) {
            Some(cmd) => Some(AppCommand::Editor(cmd)),
            None => None,
        },
    }
}

} // verus!
