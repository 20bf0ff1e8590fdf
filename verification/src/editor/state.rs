//! The editor pane: a buffer, and the commands that change it.
use super::{buffer, split};
use super::{Motion, TextBuffer};
use crate::text;
use vstd::prelude::*;

verus! {

/// What a key does in the editor pane.
#[derive(Debug, Clone, Copy, PartialEq, Eq, Structural)]
pub enum EditorCommand {
    Insert(char),
    Newline,
    DeleteBackward,
    DeleteForward,
    Left(Motion),
    Right(Motion),
    Up(Motion),
    Down(Motion),
    LineStart(Motion),
    LineEnd(Motion),
    BufferStart(Motion),
    BufferEnd(Motion),
    SelectAll,
    ClearSelection,
}

/// The editor pane's state.
#[derive(Debug, Clone)]
pub struct EditorState {
    buffer: TextBuffer,
}

impl View for EditorState {
    type V = buffer::BufferView;

    closed spec fn view(&self) -> buffer::BufferView {
        self.buffer@
    }
}

/// `b` after a command.
pub open spec fn commanded(
    b: buffer::BufferView,
    cmd: EditorCommand,
    after: buffer::BufferView,
) -> bool {
    match cmd {
        EditorCommand::Insert(c) => after.edited(b, b.edit_start(), b.edit_end(), seq![c])
            && after.goal_col is None,
        EditorCommand::Newline => after.edited(b, b.edit_start(), b.edit_end(), seq!['\n'])
            && after.goal_col is None,
        EditorCommand::DeleteBackward => after.edited(
            b,
            if b.selection() is None && b.cursor_index() > 0 {
                b.cursor_index() - 1
            } else {
                b.edit_start()
            },
            b.edit_end(),
            Seq::empty(),
        ) && after.goal_col is None,
        EditorCommand::DeleteForward => after.edited(
            b,
            b.edit_start(),
            if b.selection() is None && b.cursor_index() < b.text().len() {
                b.cursor_index() + 1
            } else {
                b.edit_end()
            },
            Seq::empty(),
        ) && after.goal_col is None,
        EditorCommand::Left(m) => after == b.moved(after.cursor, m) && after.wf()
            && after.cursor_index() == (if b.cursor_index() > 0 {
            b.cursor_index() - 1
        } else {
            0
        }),
        EditorCommand::Right(m) => after == b.moved(after.cursor, m) && after.wf()
            && after.cursor_index() == (if b.cursor_index() < b.text().len() {
            b.cursor_index() + 1
        } else {
            b.text().len() as int
        }),
        EditorCommand::Up(m) => after == b.moved_vertically(
            if b.cursor.line > 0 {
                (b.cursor.line - 1) as usize
            } else {
                0
            },
            m,
        ),
        EditorCommand::Down(m) => after == b.moved_vertically(
            if b.cursor.line + 1 < b.lines.len() {
                (b.cursor.line + 1) as usize
            } else {
                b.cursor.line
            },
            m,
        ),
        EditorCommand::LineStart(m) => after == b.moved(
            buffer::Position { line: b.cursor.line, col: 0 },
            m,
        ),
        EditorCommand::LineEnd(m) => after == b.moved(
            buffer::Position {
                line: b.cursor.line,
                col: b.lines[b.cursor.line as int].len() as usize,
            },
            m,
        ),
        EditorCommand::BufferStart(m) => after == b.moved(buffer::Position { line: 0, col: 0 }, m),
        EditorCommand::BufferEnd(m) => after == b.moved(b.end(), m),
        EditorCommand::SelectAll => after == (buffer::BufferView {
            lines: b.lines,
            cursor: b.end(),
            anchor: if b.end() == (buffer::Position { line: 0, col: 0 }) {
                None
            } else {
                Some(buffer::Position { line: 0, col: 0 })
            },
            goal_col: None,
        }),
        EditorCommand::ClearSelection => after == (buffer::BufferView { anchor: None, ..b }),
    }
}

/// Whether a command moves the cursor or selects, and how.
pub open spec fn motion_of(cmd: EditorCommand) -> Option<Motion> {
    match cmd {
        EditorCommand::Left(m) | EditorCommand::Right(m) | EditorCommand::Up(m)
        | EditorCommand::Down(m) | EditorCommand::LineStart(m) | EditorCommand::LineEnd(m)
        | EditorCommand::BufferStart(m) | EditorCommand::BufferEnd(m) => Some(m),
        _ => None,
    }
}

/// Movements leave the text as it is; with `Extend` they select what the cursor passed over, from
/// where the selection started, and with `Move` nothing.
pub proof fn law_movements_select_what_they_pass(
    b: buffer::BufferView,
    cmd: EditorCommand,
    after: buffer::BufferView,
)
    requires
        b.wf(),
        after.wf(),
        commanded(b, cmd, after),
        motion_of(cmd) is Some,
    ensures
        after.lines == b.lines,
        motion_of(cmd) == Some(Motion::Extend) ==> buffer::selects_between(
            after,
            buffer::selection_start(b),
            after.cursor,
        ),
        motion_of(cmd) == Some(Motion::Move) ==> after.selection() is None,
{
    let m = motion_of(cmd)->0;
    match cmd {
        EditorCommand::Up(_) | EditorCommand::Down(_) => {
            buffer::law_vertical_extension_selects_what_was_passed(b, after.cursor.line, m);
        },
        _ => {
            assert(after == b.moved(after.cursor, m));
            buffer::law_extending_selects_what_was_passed(b, after.cursor, m);
        },
    }
}

/// Where the movements go: one character back or on, as far as the text goes; one line up or down, as
/// far as there are lines, in the column they aim for or at the line's end; to the beginning or the end of the line, which a line break or an end of
/// the text bounds; to the beginning or the end of the text.
pub proof fn law_movements_go_where_they_say(
    b: buffer::BufferView,
    cmd: EditorCommand,
    after: buffer::BufferView,
)
    requires
        b.wf(),
        b.lines.len() <= usize::MAX,
        forall|i: int| 0 <= i < b.lines.len() ==> (#[trigger] b.lines[i]).len() <= usize::MAX,
        after.wf(),
        commanded(b, cmd, after),
    ensures
        cmd is Left ==> after.cursor_index() == b.cursor_index() - 1 || (after.cursor_index() == 0
            && b.cursor_index() == 0),
        cmd is Right ==> after.cursor_index() == b.cursor_index() + 1 || (after.cursor_index()
            == b.text().len() && b.cursor_index() == b.text().len()),
        cmd is Up ==> after.cursor.line + 1 == b.cursor.line || (after.cursor.line == 0
            && b.cursor.line == 0),
        cmd is Down ==> after.cursor.line == b.cursor.line + 1 || (after.cursor.line
            == b.cursor.line && b.cursor.line == b.lines.len() - 1),
        cmd is Up || cmd is Down ==> after.goal() == b.goal() && (after.cursor.col == b.goal() || (
        after.cursor.col == b.lines[after.cursor.line as int].len() && after.cursor.col < b.goal())),
        motion_of(cmd) is Some && !(cmd is Up) && !(cmd is Down) ==> after.goal()
            == after.cursor.col,
        cmd is LineStart || cmd is LineEnd ==> after.cursor.line == b.cursor.line,
        cmd is LineStart ==> after.cursor_index() <= b.cursor_index() && (after.cursor_index() == 0
            || b.text()[after.cursor_index() - 1] == '\n'),
        cmd is LineEnd ==> b.cursor_index() <= after.cursor_index() && (after.cursor_index()
            == b.text().len() || b.text()[after.cursor_index()] == '\n'),
        cmd is BufferStart ==> after.cursor_index() == 0,
        cmd is BufferEnd ==> after.cursor_index() == b.text().len(),
        cmd is SelectAll ==> after.lines == b.lines && after.edit_start() == 0 && after.edit_end()
            == b.text().len() && after.cursor_index() == b.text().len(),
        cmd is ClearSelection ==> after.lines == b.lines && after.cursor == b.cursor
            && after.selection() is None,
{
    let l = b.cursor.line as int;
    buffer::lemma_index_in_text(b, b.cursor);
    let zero = buffer::Position { line: 0, col: 0 };
    assert(b.lines.take(0) =~= Seq::<Seq<char>>::empty());
    assert(text::terminated(b.lines.take(0)) =~= Seq::<char>::empty());
    match cmd {
        EditorCommand::LineStart(_) => {
            buffer::lemma_index_order(b, after.cursor, b.cursor);
            buffer::lemma_index_in_text(b, after.cursor);
            if l > 0 {
                text::lemma_terminated_step(b.lines, l - 1);
                assert(b.text().take(after.cursor_index()).last() == '\n');
            }
        },
        EditorCommand::LineEnd(_) => {
            buffer::lemma_index_order(b, b.cursor, after.cursor);
            split::lemma_line_characters(b.lines, l);
        },
        EditorCommand::BufferEnd(_) | EditorCommand::SelectAll => {
            let end = buffer::BufferView {
                cursor: b.end(),
                anchor: if b.end() == zero { None } else { Some(zero) },
                ..b
            };
            buffer::law_select_all_covers_the_text(b, end);
            buffer::lemma_index_order(end, zero, end.cursor);
            if cmd is SelectAll {
                buffer::law_select_all_covers_the_text(b, after);
            }
        },
        _ => {},
    }
}

/// What an edit puts into the text.
pub open spec fn typed(cmd: EditorCommand) -> Option<Seq<char>> {
    match cmd {
        EditorCommand::Insert(c) => Some(seq![c]),
        EditorCommand::Newline => Some(seq!['\n']),
        EditorCommand::DeleteBackward | EditorCommand::DeleteForward => Some(Seq::empty()),
        _ => None,
    }
}

/// What typing and deleting do to the text. With a selection, they put the typed character, or
/// nothing, in place of what is selected. Without one, typing puts the character where the cursor
/// stands, and deleting takes the one character before the cursor, or behind it; at the text's
/// beginning, or end, it takes nothing. The cursor ends up behind what was typed, or where the
/// deleted text was, and vertical movements then aim for its column.
pub proof fn law_edits_change_what_they_say(
    b: buffer::BufferView,
    cmd: EditorCommand,
    after: buffer::BufferView,
)
    requires
        b.wf(),
        commanded(b, cmd, after),
        typed(cmd) is Some,
    ensures
        ({
            let (first, second) = match b.selection() {
                Some((first, second)) => (b.index_of(first), b.index_of(second)),
                None => (b.cursor_index(), b.cursor_index()),
            };
            let before = b.text().take(first);
            let behind = b.text().skip(second);
            &&& 0 <= first <= second <= b.text().len()
            &&& after.selection() is None
            &&& after.goal() == after.cursor.col
            &&& b.selection() is Some || typed(cmd)->0.len() > 0 ==> after.text() == before
                + typed(cmd)->0 + behind && after.cursor_index() == first + typed(cmd)->0.len()
            &&& b.selection() is None && cmd is DeleteBackward && before.len() > 0 ==> after.text()
                == before.drop_last() + behind && after.cursor_index() == first - 1
            &&& b.selection() is None && cmd is DeleteForward && behind.len() > 0 ==> after.text()
                == before + behind.drop_first() && after.cursor_index() == first
            &&& b.selection() is None && (cmd is DeleteBackward && before.len() == 0 || cmd
                is DeleteForward && behind.len() == 0) ==> after.text() == b.text()
                && after.cursor_index() == first
        }),
{
    buffer::law_edit_range_is_the_selection(b);
    let t = b.text();
    let i = b.edit_start();
    let j = b.edit_end();
    let none = Seq::<char>::empty();
    if cmd is DeleteBackward || cmd is DeleteForward {
        assert(t.take(i) + none + t.skip(j) =~= t.take(i) + t.skip(j));
        if i > 0 {
            assert(t.take(i - 1) + none + t.skip(j) =~= t.take(i).drop_last() + t.skip(j));
        }
        if j < t.len() {
            assert(t.take(i) + none + t.skip(j + 1) =~= t.take(i) + t.skip(j).drop_first());
        }
        if i == j {
            assert(t.take(i) + t.skip(j) =~= t);
        }
    }
}

impl EditorState {
    /// An empty editor.
    pub fn new() -> (e: Self)
        ensures
            e@.wf(),
            e@.text().len() == 0,
            e@ == buffer::fresh(Seq::empty()),
    {
        EditorState { buffer: TextBuffer::new() }
    }

    /// An editor that holds a buffer.
    pub fn with_buffer(buffer: TextBuffer) -> (e: Self)
        ensures
            e@ == buffer@,
    {
        EditorState { buffer }
    }

    pub fn buffer(&self) -> (b: &TextBuffer)
        ensures
            b@ == self@,
    {
        &self.buffer
    }

    pub fn buffer_mut(&mut self) -> (b: &mut TextBuffer)
        ensures
            b@ == old(self)@,
            final(self)@ == final(b)@,
    {
        &mut self.buffer
    }

    /// Carries out a command.
    pub fn command(&mut self, cmd: EditorCommand)
        requires
            old(self)@.wf(),
        ensures
            final(self)@.wf(),
            commanded(old(self)@, cmd, final(self)@),
    {
        match cmd {
            EditorCommand::Insert(c) => self.buffer.insert_char(c),
            EditorCommand::Newline => self.buffer.insert_newline(),
            EditorCommand::DeleteBackward => self.buffer.delete_backward(),
            EditorCommand::DeleteForward => self.buffer.delete_forward(),
            EditorCommand::Left(m) => self.buffer.move_left(m),
            EditorCommand::Right(m) => self.buffer.move_right(m),
            EditorCommand::Up(m) => self.buffer.move_up(m),
            EditorCommand::Down(m) => self.buffer.move_down(m),
            EditorCommand::LineStart(m) => self.buffer.move_line_start(m),
            EditorCommand::LineEnd(m) => self.buffer.move_line_end(m),
            EditorCommand::BufferStart(m) => self.buffer.move_buffer_start(m),
            EditorCommand::BufferEnd(m) => self.buffer.move_buffer_end(m),
            EditorCommand::SelectAll => self.buffer.select_all(),
            EditorCommand::ClearSelection => self.buffer.clear_selection(),
        }
    }
}

} // verus!
