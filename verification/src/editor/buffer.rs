//! A plain-text edit buffer with a cursor and an optional selection.
use vstd::prelude::*;
use crate::text;

verus! {

/// 0-based line, 0-based character column (not byte offset, not display width).
#[derive(Debug, Clone, Copy, PartialEq, Eq, PartialOrd, Ord, Structural)]
pub struct Position {
    pub line: usize,
    pub col: usize,
}

impl Default for Position {
    fn default() -> (p: Self)
        ensures
            p == (Position { line: 0, col: 0 }),
    {
        Position { line: 0, col: 0 }
    }
}

/// Whether a movement collapses the selection (`Move`) or extends it (`Extend`).
#[derive(Debug, Clone, Copy, PartialEq, Eq, Structural)]
pub enum Motion {
    Move,
    Extend,
}

/// A buffer as a value: its lines, where the cursor stands, where the selection started, and
/// the column that vertical movement aims for.
#[verifier::ext_equal]
pub struct BufferView {
    pub lines: Seq<Seq<char>>,
    pub cursor: Position,
    pub anchor: Option<Position>,
    pub goal_col: Option<usize>,
}

/// `text` with the characters from index `from` to index `to` replaced by `by`.
pub open spec fn spliced(text: Seq<char>, from: int, to: int, by: Seq<char>) -> Seq<char> {
    text.take(from) + by + text.skip(to)
}

/// Reading order: by line, then by column.
pub open spec fn at_or_before(a: Position, b: Position) -> bool {
    a.line < b.line || (a.line == b.line && a.col <= b.col)
}

impl BufferView {
    /// The whole text.
    pub open spec fn text(self) -> Seq<char> {
        text::joined(self.lines)
    }

    /// Whether `pos` names a place in the buffer.
    pub open spec fn valid(self, pos: Position) -> bool {
        pos.line < self.lines.len() && pos.col <= self.lines[pos.line as int].len()
    }

    /// How many characters of the text stand before `pos`.
    pub open spec fn index_of(self, pos: Position) -> int {
        text::terminated(self.lines.take(pos.line as int)).len() + pos.col
    }

    /// How many characters of the text stand before the cursor.
    pub open spec fn cursor_index(self) -> int {
        self.index_of(self.cursor)
    }

    /// The buffer's invariant: at least one line, no line break within a line, the cursor in
    /// the buffer, and an anchor in the buffer that is not the cursor.
    pub open spec fn wf(self) -> bool {
        &&& text::are_lines(self.lines)
        &&& self.valid(self.cursor)
        &&& (self.anchor matches Some(a) ==> self.valid(a) && a != self.cursor)
    }

    /// `pos`, or the nearest place in the buffer on its line (or on the last line).
    pub open spec fn clamped(self, pos: Position) -> Position {
        let line: usize = if pos.line < self.lines.len() {
            pos.line
        } else {
            (self.lines.len() - 1) as usize
        };
        let len = self.lines[line as int].len();
        Position {
            line,
            col: if pos.col <= len {
                pos.col
            } else {
                len as usize
            },
        }
    }

    /// The selected range in reading order; an anchor on the cursor selects nothing.
    pub open spec fn selection(self) -> Option<(Position, Position)> {
        match self.anchor {
            None => None,
            Some(a) => if a == self.cursor {
                None
            } else if at_or_before(a, self.cursor) {
                Some((a, self.cursor))
            } else {
                Some((self.cursor, a))
            },
        }
    }

    /// Where an edit starts: at the selection's start, or at the cursor.
    pub open spec fn edit_start(self) -> int {
        match self.selection() {
            Some((start, _)) => self.index_of(start),
            None => self.cursor_index(),
        }
    }

    /// Where an edit ends: at the selection's end, or at the cursor.
    pub open spec fn edit_end(self) -> int {
        match self.selection() {
            Some((_, end)) => self.index_of(end),
            None => self.cursor_index(),
        }
    }

    /// The anchor after the cursor has moved to `to`.
    pub open spec fn moved_anchor(self, to: Position, m: Motion) -> Option<Position> {
        let kept = match m {
            Motion::Move => None,
            Motion::Extend => match self.anchor {
                Some(a) => Some(a),
                None => Some(self.cursor),
            },
        };
        if kept == Some(to) {
            None
        } else {
            kept
        }
    }

    /// The buffer after a movement to a place in it that forgets the goal column.
    pub open spec fn moved(self, to: Position, m: Motion) -> BufferView {
        BufferView { cursor: to, anchor: self.moved_anchor(to, m), goal_col: None, ..self }
    }

    /// The column that vertical movement aims for.
    pub open spec fn goal(self) -> usize {
        match self.goal_col {
            Some(g) => g,
            None => self.cursor.col,
        }
    }

    /// The buffer after a vertical movement to `line`.
    pub open spec fn moved_vertically(self, line: usize, m: Motion) -> BufferView {
        let to = self.clamped(Position { line, col: self.goal() });
        BufferView {
            cursor: to,
            anchor: self.moved_anchor(to, m),
            goal_col: Some(self.goal()),
            ..self
        }
    }

    /// The end of the text.
    pub open spec fn end(self) -> Position {
        Position {
            line: (self.lines.len() - 1) as usize,
            col: self.lines.last().len() as usize,
        }
    }

    /// After an edit that put `by` in place of the characters from `from` to `to`: the text,
    /// the cursor behind the new characters, and no selection.
    pub open spec fn edited(self, old: BufferView, from: int, to: int, by: Seq<char>) -> bool {
        &&& self.wf()
        &&& self.text() == spliced(old.text(), from, to, by)
        &&& self.cursor_index() == from + by.len()
        &&& self.anchor is None
    }
}

/// A buffer that holds `text`, with the cursor at its start.
pub open spec fn fresh(text: Seq<char>) -> BufferView {
    BufferView {
        lines: text::lines_of(text),
        cursor: Position { line: 0, col: 0 },
        anchor: None,
        goal_col: None,
    }
}

/// A new buffer holds its text, with the cursor before the first character and nothing selected.
pub proof fn law_a_fresh_buffer_holds_its_text(text: Seq<char>)
    ensures
        fresh(text).wf(),
        fresh(text).text() == text,
        fresh(text).cursor_index() == 0,
        fresh(text).selection() is None,
{
    text::lemma_lines_of(text);
    let lines = text::lines_of(text);
    assert(lines.take(0) =~= Seq::<Seq<char>>::empty());
    assert(text::terminated(lines.take(0)) =~= Seq::<char>::empty());
}

/// Whether `pos` is the place whose byte offset is the last one at or before `offset`.
pub open spec fn is_position_at(b: BufferView, offset: int, pos: Position) -> bool {
    &&& b.valid(pos)
    &&& text::byte_offset(b.text(), b.index_of(pos)) <= offset
    &&& b.index_of(pos) < b.text().len() ==> offset < text::byte_offset(
        b.text(),
        b.index_of(pos) + 1,
    )
}

/// Going from a place to its byte offset and back gives the place, and no offset has two places.
pub proof fn law_position_inverts_offset(
    b: BufferView,
    offset: int,
    pos: Position,
    found: Position,
)
    requires
        b.wf(),
        b.valid(pos),
        is_position_at(b, offset, found),
    ensures
        offset == text::byte_offset(b.text(), b.index_of(pos)) ==> found == pos,
        is_position_at(b, offset, pos) ==> found == pos,
{
    let i = b.index_of(pos);
    let k = b.index_of(found);
    lemma_index_in_text(b, pos);
    lemma_index_in_text(b, found);
    if offset == text::byte_offset(b.text(), i) || is_position_at(b, offset, pos) {
        if i < k {
            text::lemma_byte_offset_monotone(b.text(), i, k);
            text::lemma_byte_offset_monotone(b.text(), i + 1, k);
        } else if k < i {
            text::lemma_byte_offset_monotone(b.text(), k + 1, i);
        }
        lemma_index_order(b, pos, found);
    }
}

/// Deleting backward takes back the insertion of a character.
pub proof fn law_delete_undoes_insert(b: BufferView, c: char, mid: BufferView, after: BufferView)
    requires
        b.wf(),
        b.selection() is None,
        mid.edited(b, b.cursor_index(), b.cursor_index(), seq![c]),
        after.edited(mid, mid.cursor_index() - 1, mid.cursor_index(), Seq::empty()),
    ensures
        after.text() == b.text(),
        after.lines == b.lines,
        after.cursor == b.cursor,
{
    let i = b.cursor_index();
    lemma_index_in_text(b, b.cursor);
    assert(mid.text().take(i) =~= b.text().take(i));
    assert(mid.text().skip(i + 1) =~= b.text().skip(i));
    assert(after.text() =~= b.text());
    text::lemma_lines_unique(after.lines, b.lines);
    lemma_index_order(b, b.cursor, after.cursor);
}

/// After everything is selected, an edit replaces the whole text.
pub proof fn law_select_all_covers_the_text(b: BufferView, after: BufferView)
    requires
        b.wf(),
        after.lines == b.lines,
        after.cursor == b.end(),
        after.anchor == (if b.end() == (Position { line: 0, col: 0 }) {
            None
        } else {
            Some(Position { line: 0, col: 0 })
        }),
        b.lines.len() <= usize::MAX,
        b.lines.last().len() <= usize::MAX,
    ensures
        after.edit_start() == 0,
        after.edit_end() == b.text().len(),
{
    let end = b.end();
    lemma_index_in_text(b, end);
    assert(b.lines.last().skip(end.col as int) =~= Seq::<char>::empty());
    assert(b.lines.skip(end.line + 1) =~= Seq::<Seq<char>>::empty());
    assert(text::preceded(b.lines.skip(end.line + 1)) =~= Seq::<char>::empty());
    assert(b.text().skip(b.index_of(end)).len() == 0);
    assert(b.lines.take(0) =~= Seq::<Seq<char>>::empty());
    assert(text::terminated(b.lines.take(0)) =~= Seq::<char>::empty());
}

/// Moving vertically over a shorter line and back returns to the column that was left.
pub proof fn law_vertical_movement_keeps_the_column(b: BufferView, there: usize, m: Motion, n: Motion)
    requires
        b.wf(),
        there < b.lines.len(),
    ensures
        b.moved_vertically(there, m).goal() == b.goal(),
        b.goal_col is None ==> b.moved_vertically(there, m).moved_vertically(
            b.cursor.line,
            n,
        ).cursor == b.cursor,
{
}

/// Extending keeps the place where the selection started, and extending back to it selects
/// nothing.
pub proof fn law_extending_keeps_the_start(b: BufferView, to: Position, back: Position)
    requires
        b.wf(),
        b.anchor is None,
        to != b.cursor,
    ensures
        b.moved(to, Motion::Extend).anchor == Some(b.cursor),
        back != b.cursor ==> b.moved(to, Motion::Extend).moved(back, Motion::Extend).anchor == Some(
            b.cursor,
        ),
        b.moved(to, Motion::Extend).moved(b.cursor, Motion::Extend).selection() is None,
        b.moved(to, Motion::Move).selection() is None,
{
}

/// The place at which the selection started: the end of it at which the cursor does not stand;
/// without a selection, the cursor's place.
pub open spec fn selection_start(b: BufferView) -> Position {
    match b.selection() {
        Some((first, second)) => if first == b.cursor {
            second
        } else {
            first
        },
        None => b.cursor,
    }
}

/// Whether what is selected is the text between two places, whichever comes first; nothing where
/// they are the same.
pub open spec fn selects_between(b: BufferView, p: Position, q: Position) -> bool {
    match b.selection() {
        None => p == q,
        Some((first, second)) => {
            &&& b.index_of(first) < b.index_of(second)
            &&& (first == p && second == q) || (first == q && second == p)
        },
    }
}

/// Extending selects what the cursor passed over: afterwards the selection lies between the place
/// where it started, which is the cursor's old place where nothing was selected, and the cursor's new
/// place. A plain movement leaves nothing selected. The text stays as it is.
pub proof fn law_extending_selects_what_was_passed(b: BufferView, to: Position, m: Motion)
    requires
        b.wf(),
        b.valid(to),
    ensures
        b.moved(to, m).lines == b.lines,
        b.moved(to, m).cursor == to,
        m == Motion::Extend ==> selects_between(b.moved(to, m), selection_start(b), to),
        m == Motion::Move ==> b.moved(to, m).selection() is None,
{
    let start = selection_start(b);
    lemma_index_order(b, start, to);
    lemma_index_order(b, to, start);
    if b.anchor is Some {
        lemma_index_order(b, b.anchor->0, b.cursor);
    }
    assert(b.moved(to, m).index_of(start) == b.index_of(start));
    assert(b.moved(to, m).index_of(to) == b.index_of(to));
}

/// Extending selects what the cursor passed over also when it moves vertically: a movement that
/// changes the cursor leaves a selection between the place where the selection started, the cursor's
/// old place where nothing was selected, and the cursor's new place. A plain movement leaves nothing
/// selected.
pub proof fn law_vertical_extension_selects_what_was_passed(b: BufferView, line: usize, m: Motion)
    requires
        b.wf(),
        line < b.lines.len(),
    ensures
        ({
            let after = b.moved_vertically(line, m);
            &&& after.wf()
            &&& after.lines == b.lines
            &&& m == Motion::Extend ==> selects_between(after, selection_start(b), after.cursor)
            &&& m == Motion::Extend && b.selection() is None && after.cursor != b.cursor ==> (
            after.selection() == Some((b.cursor, after.cursor)) || after.selection() == Some(
                (after.cursor, b.cursor),
            ))
            &&& m == Motion::Move ==> after.selection() is None
        }),
{
    let to = b.moved_vertically(line, m).cursor;
    law_extending_selects_what_was_passed(b, to, m);
    let start = selection_start(b);
    let after = b.moved_vertically(line, m);
    assert(after.index_of(start) == b.index_of(start));
    assert(after.index_of(to) == b.index_of(to));
}

/// A vertical movement arrives on the line it goes to, in the column it aims for, or at the line's
/// end where the line is shorter. It aims for the column in which the last movement that was not
/// vertical left the cursor.
pub proof fn law_vertical_movement_arrives(
    b: BufferView,
    from: Position,
    first: usize,
    second: usize,
    k: Motion,
    m: Motion,
    n: Motion,
)
    requires
        b.wf(),
        b.valid(from),
        first < b.lines.len(),
        second < b.lines.len(),
    ensures
        ({
            let start = b.moved(from, k);
            let one = start.moved_vertically(first, m);
            let two = one.moved_vertically(second, n);
            &&& one.cursor.line == first
            &&& two.cursor.line == second
            &&& one.cursor.col == from.col || (one.cursor.col == b.lines[first as int].len()
                && one.cursor.col < from.col)
            &&& two.cursor.col == from.col || (two.cursor.col == b.lines[second as int].len()
                && two.cursor.col < from.col)
        }),
{
}

/// Every place is taken to the nearest one in the buffer: a place in it stays as it is, a line past
/// the last becomes the last, and a column past the end of its line becomes the line's end.
pub proof fn law_clamped_is_the_nearest_place(b: BufferView, pos: Position, q: Position)
    requires
        text::are_lines(b.lines),
        b.lines.len() <= usize::MAX,
        b.valid(q),
    ensures
        b.valid(b.clamped(pos)),
        b.valid(pos) ==> b.clamped(pos) == pos,
        pos.line < b.lines.len() ==> b.clamped(pos).line == pos.line,
        pos.line >= b.lines.len() ==> q.line <= b.clamped(pos).line,
        b.clamped(pos).col <= pos.col,
        q.line == b.clamped(pos).line && q.col <= pos.col ==> q.col <= b.clamped(pos).col,
{
}

/// An edit leaves everything outside its range as it was: the characters before it, and those behind
/// it, moved by as much as the text grew; between them stands what was put in. The cursor stands right
/// behind that, and nothing is selected.
pub proof fn law_edit_changes_only_its_range(
    old: BufferView,
    new: BufferView,
    from: int,
    to: int,
    by: Seq<char>,
)
    requires
        0 <= from <= to <= old.text().len(),
        new.edited(old, from, to, by),
    ensures
        new.text().len() == old.text().len() - (to - from) + by.len(),
        forall|k: int| 0 <= k < from ==> #[trigger] new.text()[k] == old.text()[k],
        forall|k: int| 0 <= k < by.len() ==> #[trigger] by[k] == new.text()[from + k],
        forall|k: int|
            to <= k < old.text().len() ==> #[trigger] old.text()[k] == new.text()[k - (to - from)
                + by.len()],
        new.selection() is None,
        new.text().take(new.cursor_index()) == old.text().take(from) + by,
{
    lemma_index_in_text(new, new.cursor);
    assert(new.text().take(new.cursor_index()) =~= old.text().take(from) + by);
}

/// Inserting a text is typing its characters one after the other: the first of them takes the place of
/// what is selected.
pub proof fn law_inserting_is_typing(
    b: BufferView,
    s: Seq<char>,
    c: char,
    some: BufferView,
    typed: BufferView,
    inserted: BufferView,
)
    requires
        b.wf(),
        some.edited(b, b.edit_start(), b.edit_end(), s),
        typed.edited(some, some.edit_start(), some.edit_end(), seq![c]),
        inserted.edited(b, b.edit_start(), b.edit_end(), s.push(c)),
    ensures
        typed.text() == inserted.text(),
        typed.lines == inserted.lines,
        typed.cursor == inserted.cursor,
{
    lemma_edit_range(b);
    let i = b.edit_start();
    let n = s.len() as int;
    assert(some.edit_start() == i + n && some.edit_end() == i + n);
    assert(some.text().take(i + n) =~= b.text().take(i) + s);
    assert(some.text().skip(i + n) =~= b.text().skip(b.edit_end()));
    assert(typed.text() =~= inserted.text());
    text::lemma_lines_unique(typed.lines, inserted.lines);
    lemma_index_order(inserted, inserted.cursor, typed.cursor);
}

/// An edit takes out exactly what is selected, and nothing where nothing is.
pub proof fn law_edit_range_is_the_selection(b: BufferView)
    requires
        b.wf(),
    ensures
        0 <= b.edit_start() <= b.edit_end() <= b.text().len(),
        b.selection() is None ==> b.edit_start() == b.cursor_index() && b.edit_end()
            == b.cursor_index(),
        b.selection() matches Some((first, second)) ==> {
            &&& b.edit_start() == b.index_of(first)
            &&& b.edit_end() == b.index_of(second)
            &&& b.index_of(first) < b.index_of(second)
            &&& first == b.cursor || second == b.cursor
        },
{
    lemma_edit_range(b);
    if b.anchor is Some {
        lemma_index_order(b, b.anchor->0, b.cursor);
        lemma_index_order(b, b.cursor, b.anchor->0);
    }
}

/// A place's index counts the characters before it: line for line, with the line breaks.
pub proof fn law_index_counts_the_characters(b: BufferView, pos: Position)
    requires
        b.wf(),
        b.valid(pos),
    ensures
        0 <= b.index_of(pos) <= b.text().len(),
        text::lines_of(b.text().take(b.index_of(pos))).len() == pos.line + 1,
        text::lines_of(b.text().take(b.index_of(pos))).last()
            == b.lines[pos.line as int].take(pos.col as int),
{
    lemma_index_in_text(b, pos);
    let l = pos.line as int;
    let last = b.lines[l].take(pos.col as int);
    let lines = b.lines.take(l).push(last);
    assert(lines.drop_last() =~= b.lines.take(l));
    assert forall|i: int| 0 <= i < lines.len() implies !(#[trigger] lines[i]).contains('\n') by {
        assert(!b.lines[i].contains('\n'));
        if i == l && last.contains('\n') {
            let k = choose|k: int| 0 <= k < last.len() && last[k] == '\n';
            assert(b.lines[l][k] == '\n');
        }
    }
    text::lemma_lines_of(b.text().take(b.index_of(pos)));
    text::lemma_lines_unique(text::lines_of(b.text().take(b.index_of(pos))), lines);
}

/// A place in the buffer splits the text at its index.
pub proof fn lemma_index_in_text(b: BufferView, pos: Position)
    requires
        b.lines.len() > 0,
        b.valid(pos),
    ensures
        0 <= b.index_of(pos) <= b.text().len(),
        b.text().take(b.index_of(pos)) == text::terminated(b.lines.take(pos.line as int))
            + b.lines[pos.line as int].take(pos.col as int),
        b.text().skip(b.index_of(pos)) == b.lines[pos.line as int].skip(pos.col as int)
            + text::preceded(b.lines.skip(pos.line + 1)),
{
    let l = pos.line as int;
    let c = pos.col as int;
    text::lemma_joined_at(b.lines, l);
    let head = text::terminated(b.lines.take(l));
    let tail = text::preceded(b.lines.skip(l + 1));
    assert(b.text().take(b.index_of(pos)) =~= head + b.lines[l].take(c));
    assert(b.text().skip(b.index_of(pos)) =~= b.lines[l].skip(c) + tail);
}

/// Reading order is the order of the indices.
pub proof fn lemma_index_order(b: BufferView, p: Position, q: Position)
    requires
        b.valid(p),
        b.valid(q),
    ensures
        at_or_before(p, q) <==> b.index_of(p) <= b.index_of(q),
        p == q <==> b.index_of(p) == b.index_of(q),
{
    if p.line < q.line {
        text::lemma_terminated_monotone(b.lines, p.line as int, q.line as int);
    } else if q.line < p.line {
        text::lemma_terminated_monotone(b.lines, q.line as int, p.line as int);
    }
}

/// Text, cursor index and anchor index determine the buffer: no two buffers that hold their
/// invariant agree on them and differ in lines, cursor or anchor.
pub proof fn law_text_and_places_determine_the_buffer(a: BufferView, b: BufferView)
    requires
        a.wf(),
        b.wf(),
        a.text() == b.text(),
        a.cursor_index() == b.cursor_index(),
        a.anchor is Some <==> b.anchor is Some,
        a.anchor is Some ==> a.index_of(a.anchor->0) == b.index_of(b.anchor->0),
        a.goal_col == b.goal_col,
    ensures
        a == b,
{
    text::lemma_lines_unique(a.lines, b.lines);
    lemma_index_order(a, a.cursor, b.cursor);
    if a.anchor is Some {
        lemma_index_order(a, a.anchor->0, b.anchor->0);
    }
}

/// `head` in front of the first line, and `tail` behind the last one.
spec fn widened(parts: Seq<Seq<char>>, head: Seq<char>, tail: Seq<char>) -> Seq<Seq<char>> {
    let with_head = parts.update(0, head + parts[0]);
    with_head.update(parts.len() - 1, with_head[parts.len() - 1] + tail)
}

proof fn lemma_widened(parts: Seq<Seq<char>>, head: Seq<char>, tail: Seq<char>)
    requires
        text::are_lines(parts),
        !head.contains('\n'),
        !tail.contains('\n'),
    ensures
        text::are_lines(widened(parts, head, tail)),
        widened(parts, head, tail).len() == parts.len(),
        text::joined(widened(parts, head, tail)) == head + text::joined(parts) + tail,
        widened(parts, head, tail).last() == parts.update(0, head + parts[0]).last() + tail,
{
    let with_head = parts.update(0, head + parts[0]);
    let last = parts.len() - 1;
    let all = widened(parts, head, tail);
    text::lemma_joined_at(parts, 0);
    text::lemma_joined_at(with_head, 0);
    assert(parts.take(0) =~= Seq::<Seq<char>>::empty());
    assert(text::terminated(parts.take(0)) == Seq::<char>::empty());
    assert(with_head.take(0) =~= Seq::<Seq<char>>::empty());
    assert(with_head.skip(1) =~= parts.skip(1));
    assert(text::joined(with_head) =~= head + text::joined(parts));
    assert(all.drop_last() =~= with_head.drop_last());
    assert(text::joined(all) =~= text::joined(with_head) + tail);
    assert forall|i: int| 0 <= i < all.len() implies !(#[trigger] all[i]).contains('\n') by {
        assert(!parts[i].contains('\n'));
        assert forall|j: int| 0 <= j < all[i].len() implies all[i][j] != '\n' by {
            let k = if i == 0 { j - head.len() } else { j };
            if k < 0 {
                assert(head.contains(head[j]));
            } else if k < parts[i].len() {
                assert(parts[i].contains(parts[i][k]));
            } else {
                assert(tail.contains(tail[k - parts[i].len()]));
            }
        }
    }
}

/// A block of lines between other lines.
proof fn lemma_joined_block(before: Seq<Seq<char>>, block: Seq<Seq<char>>, rest: Seq<Seq<char>>)
    requires
        block.len() > 0,
    ensures
        text::joined(before + block + rest) == text::terminated(before) + text::joined(block)
            + text::preceded(rest),
{
    let all = before + block + rest;
    let k = before.len() + block.len() - 1;
    text::lemma_joined_at(all, k as int);
    assert(all.take(k as int) =~= before + block.drop_last());
    assert(all.skip(k + 1) =~= rest);
    text::lemma_terminated_concat(before, block.drop_last());
    assert(text::joined(all) =~= text::terminated(before) + text::joined(block) + text::preceded(
        rest,
    ));
}

/// Replacing the lines that hold a range by the lines of the new text, widened by what stands
/// left and right of the range, splices the text.
proof fn lemma_spliced_lines(
    b: BufferView,
    start: Position,
    end: Position,
    parts: Seq<Seq<char>>,
    a: BufferView,
)
    requires
        text::are_lines(b.lines),
        b.valid(start),
        b.valid(end),
        at_or_before(start, end),
        text::are_lines(parts),
        ({
            let head = b.lines[start.line as int].take(start.col as int);
            let tail = b.lines[end.line as int].skip(end.col as int);
            let last = parts.len() - 1;
            &&& a.lines == b.lines.take(start.line as int) + widened(parts, head, tail)
                + b.lines.skip(end.line + 1)
            &&& a.cursor.line == start.line + last
            &&& a.cursor.col == parts.update(0, head + parts[0])[last].len()
        }),
    ensures
        text::are_lines(a.lines),
        a.valid(a.cursor),
        a.text() == spliced(b.text(), b.index_of(start), b.index_of(end), text::joined(parts)),
        a.cursor_index() == b.index_of(start) + text::joined(parts).len(),
{
    let sl = start.line as int;
    let el = end.line as int;
    let head = b.lines[sl].take(start.col as int);
    let tail = b.lines[el].skip(end.col as int);
    let before = b.lines.take(sl);
    let rest = b.lines.skip(el + 1);
    let block = widened(parts, head, tail);
    lemma_index_in_text(b, start);
    lemma_index_in_text(b, end);
    assert(!head.contains('\n')) by {
        assert(!b.lines[sl].contains('\n'));
    }
    assert(!tail.contains('\n')) by {
        assert(!b.lines[el].contains('\n'));
    }
    lemma_widened(parts, head, tail);
    lemma_joined_block(before, block, rest);
    assert(a.text() =~= spliced(
        b.text(),
        b.index_of(start),
        b.index_of(end),
        text::joined(parts),
    ));
    assert(a.lines.take(a.cursor.line as int) =~= before + block.drop_last());
    text::lemma_terminated_concat(before, block.drop_last());
    assert(a.lines[a.cursor.line as int] == block.last());
    assert forall|i: int| 0 <= i < a.lines.len() implies !(#[trigger] a.lines[i]).contains(
        '\n',
    ) by {
        if i < sl {
            assert(a.lines[i] == b.lines[i]);
        } else if i < sl + block.len() {
            assert(a.lines[i] == block[i - sl]);
        } else {
            assert(a.lines[i] == b.lines[el + 1 + (i - sl - block.len())]);
        }
    }
}

/// A plain-text edit buffer with a cursor and an optional selection.
#[derive(Debug, Clone)]
pub struct TextBuffer {
    lines: Vec<String>,
    cursor: Position,
    anchor: Option<Position>,
    goal_col: Option<usize>,
}

impl View for TextBuffer {
    type V = BufferView;

    closed spec fn view(&self) -> BufferView {
        BufferView {
            lines: text::views(self.lines@),
            cursor: self.cursor,
            anchor: self.anchor,
            goal_col: self.goal_col,
        }
    }
}

fn char_byte_index(line: &str, col: usize) -> (offset: usize)
    ensures
        offset == text::byte_offset(
            line@,
            if col <= line@.len() {
                col as int
            } else {
                line@.len() as int
            },
        ),
{
    let total: usize = text::byte_count(line);
    let mut offset: usize = 0;
    let mut k: usize = 0;
    proof {
        assert(line@.take(0) =~= Seq::<char>::empty());
    }
    for c in it: line.chars()
        invariant
            it.seq() == line@,
            total == text::byte_len(line@),
            k == (if col <= it.index() { col as int } else { it.index() as int }),
            offset == text::byte_offset(line@, k as int),
    {
        if k < col {
            proof {
                text::lemma_byte_offset_step(line@, k as int);
                text::lemma_byte_offset_monotone(line@, k + 1, line@.len() as int);
                text::lemma_byte_len_bounds(line@);
            }
            offset = offset + text::width_of(c);
            k = k + 1;
        }
    }
    offset
}

impl Default for TextBuffer {
    fn default() -> (b: Self)
        ensures
            b@.wf(),
            b@.text().len() == 0,
            b@.cursor == (Position { line: 0, col: 0 }),
            b@.anchor is None,
            b@.goal_col is None,
    {
        TextBuffer::new()
    }
}

impl TextBuffer {
    /// The empty buffer.
    pub fn new() -> (b: Self)
        ensures
            b@.wf(),
            b@.text().len() == 0,
            b@ == fresh(Seq::empty()),
    {
        proof {
            reveal_strlit("");
            assert(""@ =~= Seq::<char>::empty());
        }
        TextBuffer::from_text("")
    }

    /// Splits on `'\n'` only: a `'\r'` before it stays in its line.
    pub fn from_text(text: &str) -> (b: Self)
        ensures
            b@.wf(),
            b@.text() == text@,
            b@ == fresh(text@),
    {
        let lines: Vec<String> = text::split_lines(text);
        proof {
            text::lemma_lines_of(text@);
            text::lemma_lines_unique(text::views(lines@), text::lines_of(text@));
        }
        TextBuffer {
            lines,
            cursor: Position { line: 0, col: 0 },
            anchor: None,
            goal_col: None,
        }
    }

    /// The whole text, with a line break between each two lines.
    pub fn text(&self) -> (text: String)
        requires
            self@.wf(),
        ensures
            text@ == self@.text(),
    {
        text::join_lines(&self.lines)
    }

    /// The lines of the text.
    pub fn lines(&self) -> (lines: &[String])
        ensures
            text::views(lines@) == self@.lines,
    {
        self.lines.as_slice()
    }

    /// Where the cursor stands.
    pub fn cursor(&self) -> (pos: Position)
        ensures
            pos == self@.cursor,
    {
        self.cursor
    }

    /// The selected range, start before end; `None` if nothing is selected.
    pub fn selection(&self) -> (range: Option<(Position, Position)>)
        ensures
            range == self@.selection(),
    {
        match self.anchor {
            None => None,
            Some(anchor) => {
                if anchor == self.cursor {
                    None
                } else if anchor.line < self.cursor.line || (anchor.line == self.cursor.line
                    && anchor.col <= self.cursor.col) {
                    Some((anchor, self.cursor))
                } else {
                    Some((self.cursor, anchor))
                }
            },
        }
    }

    /// Whether the text is empty.
    pub fn is_empty(&self) -> (empty: bool)
        requires
            self@.wf(),
        ensures
            empty == (self@.text().len() == 0),
    {
        let empty = self.lines.len() == 1 && self.lines[0].as_str().is_empty();
        proof {
            if self.lines@.len() > 1 {
                text::lemma_terminated_monotone(self@.lines, 0, self@.lines.len() - 1);
                assert(self@.lines.take(self@.lines.len() - 1) =~= self@.lines.drop_last());
            } else {
                assert(self@.lines.drop_last() =~= Seq::<Seq<char>>::empty());
                assert(text::terminated(self@.lines.drop_last()) == Seq::<char>::empty());
                assert(self@.lines[0] == self.lines@[0]@);
            }
        }
        empty
    }

    fn line_char_count(&self, line: usize) -> (n: usize)
        requires
            line < self@.lines.len(),
        ensures
            n == self@.lines[line as int].len(),
    {
        self.lines[line].as_str().unicode_len()
    }

    fn clamp_position(&self, pos: Position) -> (r: Position)
        requires
            self@.wf(),
        ensures
            r == self@.clamped(pos),
            self@.valid(r),
    {
        let last: usize = self.lines.len() - 1;
        let line: usize = if pos.line <= last {
            pos.line
        } else {
            last
        };
        let count: usize = self.line_char_count(line);
        let col: usize = if pos.col <= count {
            pos.col
        } else {
            count
        };
        Position { line, col }
    }

    /// Byte offset into the string that `text` returns, for the place in the buffer that is
    /// nearest to `pos` on its line.
    pub fn offset_of(&self, pos: Position) -> (offset: usize)
        requires
            self@.wf(),
            text::byte_len(self@.text()) <= usize::MAX,
        ensures
            offset == text::byte_offset(self@.text(), self@.index_of(self@.clamped(pos))),
    {
        let pos: Position = self.clamp_position(pos);
        let mut offset: usize = 0;
        let mut i: usize = 0;
        proof {
            assert(self@.lines.take(0) =~= Seq::<Seq<char>>::empty());
        }
        while i < pos.line
            invariant
                self@.wf(),
                self@.valid(pos),
                i <= pos.line,
                text::byte_len(self@.text()) <= usize::MAX,
                offset == text::byte_len(text::terminated(self@.lines.take(i as int))),
            decreases pos.line - i,
        {
            proof {
                self.lemma_line_in_bytes(i as int);
            }
            offset = offset + text::byte_count(self.lines[i].as_str()) + 1;
            i = i + 1;
        }
        proof {
            let line = self@.lines[pos.line as int];
            lemma_index_in_text(self@, pos);
            let head = text::terminated(self@.lines.take(pos.line as int));
            text::lemma_byte_len_concat(head, line.take(pos.col as int));
            text::lemma_byte_offset_monotone(
                self@.text(),
                self@.index_of(pos),
                self@.text().len() as int,
            );
        }
        offset + char_byte_index(self.lines[pos.line].as_str(), pos.col)
    }

    /// The bytes up to the end of a line, with its break, lie within the text and one byte.
    proof fn lemma_line_in_bytes(&self, i: int)
        requires
            self@.wf(),
            0 <= i < self@.lines.len(),
        ensures
            text::byte_len(text::terminated(self@.lines.take(i + 1))) == text::byte_len(
                text::terminated(self@.lines.take(i)),
            ) + text::byte_len(self@.lines[i]) + 1,
            i + 1 < self@.lines.len() ==> text::byte_len(
                text::terminated(self@.lines.take(i + 1)),
            ) <= text::byte_len(self@.text()),
            self@.lines[i] == self.lines@[i]@,
    {
        let line = self@.lines[i];
        let before = text::terminated(self@.lines.take(i));
        text::lemma_terminated_step(self@.lines, i);
        text::lemma_byte_len_concat(before, line.push('\n'));
        assert(line.push('\n') =~= line + seq!['\n']);
        text::lemma_byte_len_concat(line, seq!['\n']);
        text::lemma_byte_len_one('\n');
        assert(text::char_width('\n') == 1);
        if i + 1 < self@.lines.len() {
            text::lemma_joined_at(self@.lines, i + 1);
            let head = text::terminated(self@.lines.take(i + 1));
            let tail = self@.lines[i + 1] + text::preceded(self@.lines.skip(i + 2));
            assert(self@.text() =~= head + tail);
            text::lemma_byte_len_concat(head, tail);
        }
    }

    /// The place whose byte offset is the last one at or before `offset`: an offset past the
    /// end gives the end, one within a character gives the character's start.
    pub fn position_of(&self, offset: usize) -> (pos: Position)
        requires
            self@.wf(),
        ensures
            is_position_at(self@, offset as int, pos),
    {
        let mut rest: usize = offset;
        let n: usize = self.lines.len();
        let mut i: usize = 0;
        proof {
            assert(self@.lines.take(0) =~= Seq::<Seq<char>>::empty());
        }
        while i < n
            invariant
                self@.wf(),
                n == self@.lines.len(),
                i <= n,
                offset == rest + text::byte_len(text::terminated(self@.lines.take(i as int))),
            decreases n - i,
        {
            let length: usize = text::byte_count(self.lines[i].as_str());
            proof {
                self.lemma_line_in_bytes(i as int);
            }
            if rest <= length {
                let col: usize = text::chars_within(self.lines[i].as_str(), rest);
                let pos: Position = Position { line: i, col };
                proof {
                    let line = self@.lines[i as int];
                    let k = self@.index_of(pos);
                    let head = text::terminated(self@.lines.take(i as int));
                    lemma_index_in_text(self@, pos);
                    text::lemma_byte_len_concat(head, line.take(col as int));
                    if k < self@.text().len() {
                        text::lemma_byte_offset_step(self@.text(), k);
                        assert(self@.text()[k] == self@.text().skip(k)[0]);
                        if col < line.len() {
                            text::lemma_byte_offset_step(line, col as int);
                            assert(self@.text()[k] == line[col as int]);
                        } else {
                            assert(line.take(col as int) =~= line);
                        }
                    }
                }
                return pos;
            }
            rest = rest - length - 1;
            i = i + 1;
        }
        let last: usize = n - 1;
        let pos: Position = Position { line: last, col: self.line_char_count(last) };
        proof {
            let line = self@.lines[last as int];
            lemma_index_in_text(self@, pos);
            self.lemma_line_in_bytes(last as int);
            let head = text::terminated(self@.lines.take(last as int));
            assert(line.take(line.len() as int) =~= line);
            text::lemma_byte_len_concat(head, line);
            assert(self@.lines.skip(n as int) =~= Seq::<Seq<char>>::empty());
            assert(text::preceded(self@.lines.skip(n as int)) == Seq::<char>::empty());
            text::lemma_joined_at(self@.lines, last as int);
            assert(self@.text() =~= head + line);
        }
        pos
    }

    /// Replaces the text between two places and puts the cursor behind the new text.
    fn splice(&mut self, start: Position, end: Position, by: &str)
        requires
            old(self)@.wf(),
            old(self)@.valid(start),
            old(self)@.valid(end),
            at_or_before(start, end),
        ensures
            text::are_lines(final(self)@.lines),
            final(self)@.valid(final(self)@.cursor),
            final(self)@.text() == spliced(
                old(self)@.text(),
                old(self)@.index_of(start),
                old(self)@.index_of(end),
                by@,
            ),
            final(self)@.cursor_index() == old(self)@.index_of(start) + by@.len(),
            final(self)@.anchor == old(self)@.anchor,
            final(self)@.goal_col == old(self)@.goal_col,
    {
        let ghost before = self@;
        let mut parts: Vec<String> = text::split_lines(by);
        let ghost pieces = text::views(parts@);
        let last: usize = parts.len() - 1;
        let end_count: usize = self.line_char_count(end.line);
        let tail: String = self.lines[end.line].as_str().substring_char(
            end.col,
            end_count,
        ).to_owned();
        let mut first: String = self.lines[start.line].as_str().substring_char(
            0,
            start.col,
        ).to_owned();
        let ghost head = first@;
        first.append(parts[0].as_str());
        parts.set(0, first);
        let col: usize = parts[last].as_str().unicode_len();
        let mut closing: String = parts[last].clone();
        closing.append(tail.as_str());
        parts.set(last, closing);
        proof {
            assert(head =~= before.lines[start.line as int].take(start.col as int));
            assert(tail@ =~= before.lines[end.line as int].skip(end.col as int));
            assert(text::views(parts@) =~= widened(pieces, head, tail@));
        }
        if start.line == end.line && last == 0 {
            let line: String = parts[0].clone();
            self.lines.set(start.line, line);
            self.cursor = Position { line: start.line, col };
            proof {
                assert(self@.lines =~= before.lines.take(start.line as int) + widened(
                    pieces,
                    head,
                    tail@,
                ) + before.lines.skip(end.line + 1));
            }
        } else {
            let total: usize = self.lines.len();
            assert(end.line < total);
            let mut rest: Vec<String> = self.lines.split_off(end.line + 1);
            self.lines.truncate(start.line);
            self.lines.append(&mut parts);
            let ghost upto = self.lines@;
            let line: usize = self.lines.len() - 1;
            self.lines.append(&mut rest);
            self.cursor = Position { line, col };
            proof {
                assert(self@.lines =~= before.lines.take(start.line as int) + widened(
                    pieces,
                    head,
                    tail@,
                ) + before.lines.skip(end.line + 1));
            }
        }
        proof {
            lemma_spliced_lines(before, start, end, pieces, self@);
        }
    }

    /// Replaces the selection, or inserts at the cursor where nothing is selected.
    fn replace_selection(&mut self, by: &str)
        requires
            old(self)@.wf(),
        ensures
            final(self)@.edited(old(self)@, old(self)@.edit_start(), old(self)@.edit_end(), by@),
            final(self)@.goal_col is None,
    {
        let range = match self.selection() {
            Some(r) => r,
            None => (self.cursor, self.cursor),
        };
        self.splice(range.0, range.1, by);
        self.anchor = None;
        self.goal_col = None;
    }

    /// Inserts a character at the cursor, in place of the selection if there is one.
    pub fn insert_char(&mut self, c: char)
        requires
            old(self)@.wf(),
        ensures
            final(self)@.edited(
                old(self)@,
                old(self)@.edit_start(),
                old(self)@.edit_end(),
                seq![c],
            ),
            final(self)@.goal_col is None,
    {
        let mut by: String = String::new();
        by.push(c);
        proof {
            assert(by@ =~= seq![c]);
        }
        self.replace_selection(by.as_str());
    }

    /// Inserts a text at the cursor, in place of the selection if there is one. An empty text
    /// deletes the selection; without one it leaves even the goal column as it was.
    pub fn insert_str(&mut self, s: &str)
        requires
            old(self)@.wf(),
        ensures
            final(self)@.edited(old(self)@, old(self)@.edit_start(), old(self)@.edit_end(), s@),
            final(self)@.goal_col == (if s@.len() == 0 && old(self)@.selection() is None {
                old(self)@.goal_col
            } else {
                None
            }),
    {
        let ghost before = self@;
        let deleted: bool = self.delete_selection();
        proof {
            reveal_strlit("");
            lemma_edit_range(before);
        }
        if s.is_empty() {
            proof {
                assert(s@ =~= Seq::<char>::empty());
            }
            return;
        }
        proof {
            lemma_index_in_text(self@, self@.cursor);
            assert(spliced(
                spliced(
                    before.text(),
                    before.edit_start(),
                    before.edit_end(),
                    Seq::<char>::empty(),
                ),
                before.edit_start(),
                before.edit_start(),
                s@,
            ) =~= spliced(before.text(), before.edit_start(), before.edit_end(), s@));
        }
        self.replace_selection(s);
    }

    /// Inserts a line break at the cursor, in place of the selection if there is one.
    pub fn insert_newline(&mut self)
        requires
            old(self)@.wf(),
        ensures
            final(self)@.edited(
                old(self)@,
                old(self)@.edit_start(),
                old(self)@.edit_end(),
                seq!['\n'],
            ),
            final(self)@.goal_col is None,
    {
        self.insert_char('\n');
    }

    /// Deletes the selection, or the character before the cursor.
    pub fn delete_backward(&mut self)
        requires
            old(self)@.wf(),
        ensures
            final(self)@.edited(
                old(self)@,
                if old(self)@.selection() is None && old(self)@.cursor_index() > 0 {
                    old(self)@.cursor_index() - 1
                } else {
                    old(self)@.edit_start()
                },
                old(self)@.edit_end(),
                Seq::empty(),
            ),
            final(self)@.goal_col is None,
    {
        let ghost before = self@;
        proof {
            reveal_strlit("");
            lemma_edit_range(before);
        }
        if self.delete_selection() {
            return;
        }
        let end: Position = self.cursor;
        let start: Position = if end.col > 0 {
            Position { line: end.line, col: end.col - 1 }
        } else if end.line > 0 {
            Position { line: end.line - 1, col: self.line_char_count(end.line - 1) }
        } else {
            end
        };
        proof {
            assert(before.lines == self@.lines);
            if end.col == 0 && end.line > 0 {
                text::lemma_terminated_step(before.lines, end.line - 1);
            } else if end.col == 0 {
                assert(before.lines.take(0) =~= Seq::<Seq<char>>::empty());
            }
        }
        self.splice(start, end, "");
        self.goal_col = None;
        proof {
            assert(""@ =~= Seq::<char>::empty());
        }
    }

    /// Deletes the selection, or the character after the cursor.
    pub fn delete_forward(&mut self)
        requires
            old(self)@.wf(),
        ensures
            final(self)@.edited(
                old(self)@,
                old(self)@.edit_start(),
                if old(self)@.selection() is None && old(self)@.cursor_index()
                    < old(self)@.text().len() {
                    old(self)@.cursor_index() + 1
                } else {
                    old(self)@.edit_end()
                },
                Seq::empty(),
            ),
            final(self)@.goal_col is None,
    {
        let ghost before = self@;
        proof {
            reveal_strlit("");
            lemma_edit_range(before);
            lemma_index_in_text(before, before.cursor);
        }
        if self.delete_selection() {
            return;
        }
        let start: Position = self.cursor;
        let count: usize = self.line_char_count(start.line);
        let end: Position = if start.col < count {
            Position { line: start.line, col: start.col + 1 }
        } else if start.line < self.lines.len() - 1 {
            Position { line: start.line + 1, col: 0 }
        } else {
            start
        };
        proof {
            assert(before.lines == self@.lines);
            if start.col == count {
                if start.line + 1 < before.lines.len() {
                    text::lemma_terminated_step(before.lines, start.line as int);
                    lemma_index_in_text(before, end);
                } else {
                    assert(before.lines.skip(start.line + 1) =~= Seq::<Seq<char>>::empty());
                    assert(text::preceded(before.lines.skip(start.line + 1)) == Seq::<
                        char,
                    >::empty());
                    assert(before.text().skip(before.cursor_index()).len() == 0);
                }
            } else {
                lemma_index_in_text(before, end);
            }
        }
        self.splice(start, end, "");
        self.goal_col = None;
        proof {
            assert(""@ =~= Seq::<char>::empty());
        }
    }

    /// Deletes the selected text and says whether there was any; the anchor goes either way.
    pub fn delete_selection(&mut self) -> (deleted: bool)
        requires
            old(self)@.wf(),
        ensures
            deleted == (old(self)@.selection() is Some),
            final(self)@.edited(
                old(self)@,
                old(self)@.edit_start(),
                old(self)@.edit_end(),
                Seq::empty(),
            ),
            !deleted ==> final(self)@ == (BufferView { anchor: None, ..old(self)@ }),
            deleted ==> final(self)@.goal_col is None,
    {
        let ghost before = self@;
        proof {
            reveal_strlit("");
            lemma_edit_range(before);
        }
        match self.selection() {
            None => {
                self.anchor = None;
                proof {
                    let k = before.cursor_index();
                    lemma_index_in_text(before, before.cursor);
                    assert(spliced(before.text(), k, k, Seq::<char>::empty()) =~= before.text());
                }
                false
            },
            Some((start, end)) => {
                self.splice(start, end, "");
                self.anchor = None;
                self.goal_col = None;
                proof {
                    assert(""@ =~= Seq::<char>::empty());
                }
                true
            },
        }
    }

    /// An anchor on the cursor selects nothing and is dropped.
    fn canonicalize_anchor(&mut self)
        ensures
            final(self)@ == (BufferView {
                anchor: if old(self)@.anchor == Some(old(self)@.cursor) {
                    None
                } else {
                    old(self)@.anchor
                },
                ..old(self)@
            }),
    {
        if let Some(anchor) = self.anchor {
            if anchor == self.cursor {
                self.anchor = None;
            }
        }
    }

    /// Moves the cursor to the place in the buffer that is nearest to `pos` on its line.
    pub fn move_to(&mut self, pos: Position, m: Motion)
        requires
            old(self)@.wf(),
        ensures
            final(self)@.wf(),
            final(self)@ == old(self)@.moved(old(self)@.clamped(pos), m),
    {
        let pos: Position = self.clamp_position(pos);
        self.goal_col = None;
        self.place(pos, m);
    }

    /// Puts the cursor on `pos` and keeps or drops the anchor as the motion says.
    fn place(&mut self, pos: Position, m: Motion)
        requires
            old(self)@.wf(),
            old(self)@.valid(pos),
        ensures
            final(self)@.wf(),
            final(self)@ == (BufferView {
                cursor: pos,
                anchor: old(self)@.moved_anchor(pos, m),
                ..old(self)@
            }),
    {
        match m {
            Motion::Extend => {
                if self.anchor.is_none() {
                    self.anchor = Some(self.cursor);
                }
            },
            Motion::Move => {
                self.anchor = None;
            },
        }
        self.cursor = pos;
        self.canonicalize_anchor();
    }

    /// One character back; from the start of a line to the end of the line before it.
    pub fn move_left(&mut self, m: Motion)
        requires
            old(self)@.wf(),
        ensures
            final(self)@.wf(),
            final(self)@ == old(self)@.moved(final(self)@.cursor, m),
            final(self)@.cursor_index() == if old(self)@.cursor_index() > 0 {
                old(self)@.cursor_index() - 1
            } else {
                0
            },
    {
        let ghost before = self@;
        let Position { line, col } = self.cursor;
        let target: Position = if col > 0 {
            Position { line, col: col - 1 }
        } else if line > 0 {
            Position { line: line - 1, col: self.line_char_count(line - 1) }
        } else {
            Position { line, col }
        };
        proof {
            if col == 0 && line > 0 {
                text::lemma_terminated_step(before.lines, line - 1);
            } else if col == 0 {
                assert(before.lines.take(0) =~= Seq::<Seq<char>>::empty());
            }
        }
        self.move_to(target, m);
    }

    /// One character on; from the end of a line to the start of the line after it.
    pub fn move_right(&mut self, m: Motion)
        requires
            old(self)@.wf(),
        ensures
            final(self)@.wf(),
            final(self)@ == old(self)@.moved(final(self)@.cursor, m),
            final(self)@.cursor_index() == if old(self)@.cursor_index() < old(self)@.text().len() {
                old(self)@.cursor_index() + 1
            } else {
                old(self)@.text().len() as int
            },
    {
        let ghost before = self@;
        let Position { line, col } = self.cursor;
        let count: usize = self.line_char_count(line);
        let target: Position = if col < count {
            Position { line, col: col + 1 }
        } else if line < self.lines.len() - 1 {
            Position { line: line + 1, col: 0 }
        } else {
            Position { line, col }
        };
        proof {
            lemma_index_in_text(before, before.cursor);
            if col == count {
                if line + 1 < before.lines.len() {
                    text::lemma_terminated_step(before.lines, line as int);
                    lemma_index_in_text(before, target);
                } else {
                    assert(before.lines.skip(line + 1) =~= Seq::<Seq<char>>::empty());
                    assert(text::preceded(before.lines.skip(line + 1)) == Seq::<char>::empty());
                    assert(before.text().skip(before.cursor_index()).len() == 0);
                }
            } else {
                lemma_index_in_text(before, target);
            }
        }
        self.move_to(target, m);
    }

    /// Moves the cursor to `pos` and keeps the column that vertical movement aims for.
    fn apply_vertical(&mut self, line: usize, m: Motion)
        requires
            old(self)@.wf(),
            line < old(self)@.lines.len(),
        ensures
            final(self)@.wf(),
            final(self)@ == old(self)@.moved_vertically(line, m),
    {
        let goal: usize = match self.goal_col {
            Some(g) => g,
            None => self.cursor.col,
        };
        self.goal_col = Some(goal);
        let target: Position = self.clamp_position(Position { line, col: goal });
        self.place(target, m);
    }

    /// One line up, to the goal column or the line's end; on the first line, to that column.
    pub fn move_up(&mut self, m: Motion)
        requires
            old(self)@.wf(),
        ensures
            final(self)@.wf(),
            final(self)@ == old(self)@.moved_vertically(
                if old(self)@.cursor.line > 0 {
                    (old(self)@.cursor.line - 1) as usize
                } else {
                    0
                },
                m,
            ),
    {
        let line: usize = if self.cursor.line > 0 {
            self.cursor.line - 1
        } else {
            0
        };
        self.apply_vertical(line, m);
    }

    /// One line down, to the goal column or the line's end; on the last line, to that column.
    pub fn move_down(&mut self, m: Motion)
        requires
            old(self)@.wf(),
        ensures
            final(self)@.wf(),
            final(self)@ == old(self)@.moved_vertically(
                if old(self)@.cursor.line + 1 < old(self)@.lines.len() {
                    (old(self)@.cursor.line + 1) as usize
                } else {
                    old(self)@.cursor.line
                },
                m,
            ),
    {
        let line: usize = if self.cursor.line < self.lines.len() - 1 {
            self.cursor.line + 1
        } else {
            self.cursor.line
        };
        self.apply_vertical(line, m);
    }

    /// To the start of the cursor's line.
    pub fn move_line_start(&mut self, m: Motion)
        requires
            old(self)@.wf(),
        ensures
            final(self)@.wf(),
            final(self)@ == old(self)@.moved(
                Position { line: old(self)@.cursor.line, col: 0 },
                m,
            ),
    {
        let line: usize = self.cursor.line;
        self.move_to(Position { line, col: 0 }, m);
    }

    /// To the end of the cursor's line.
    pub fn move_line_end(&mut self, m: Motion)
        requires
            old(self)@.wf(),
        ensures
            final(self)@.wf(),
            final(self)@ == old(self)@.moved(
                Position {
                    line: old(self)@.cursor.line,
                    col: old(self)@.lines[old(self)@.cursor.line as int].len() as usize,
                },
                m,
            ),
    {
        let line: usize = self.cursor.line;
        let col: usize = self.line_char_count(line);
        self.move_to(Position { line, col }, m);
    }

    /// To the start of the text.
    pub fn move_buffer_start(&mut self, m: Motion)
        requires
            old(self)@.wf(),
        ensures
            final(self)@.wf(),
            final(self)@ == old(self)@.moved(Position { line: 0, col: 0 }, m),
    {
        self.move_to(Position { line: 0, col: 0 }, m);
    }

    /// To the end of the text.
    pub fn move_buffer_end(&mut self, m: Motion)
        requires
            old(self)@.wf(),
        ensures
            final(self)@.wf(),
            final(self)@ == old(self)@.moved(old(self)@.end(), m),
    {
        let line: usize = self.lines.len() - 1;
        let col: usize = self.line_char_count(line);
        self.move_to(Position { line, col }, m);
    }

    /// Selects the whole text; an empty text leaves nothing selected.
    pub fn select_all(&mut self)
        requires
            old(self)@.wf(),
        ensures
            final(self)@.wf(),
            final(self)@ == (BufferView {
                lines: old(self)@.lines,
                cursor: old(self)@.end(),
                anchor: if old(self)@.end() == (Position { line: 0, col: 0 }) {
                    None
                } else {
                    Some(Position { line: 0, col: 0 })
                },
                goal_col: None,
            }),
    {
        let line: usize = self.lines.len() - 1;
        let col: usize = self.line_char_count(line);
        self.anchor = Some(Position { line: 0, col: 0 });
        self.cursor = Position { line, col };
        self.goal_col = None;
        self.canonicalize_anchor();
    }

    /// Drops the selection and leaves the cursor where it is.
    pub fn clear_selection(&mut self)
        requires
            old(self)@.wf(),
        ensures
            final(self)@.wf(),
            final(self)@ == (BufferView { anchor: None, ..old(self)@ }),
    {
        self.anchor = None;
    }
}

/// An edit's range lies in the text.
pub proof fn lemma_edit_range(b: BufferView)
    requires
        b.wf(),
    ensures
        0 <= b.edit_start() <= b.edit_end() <= b.text().len(),
        b.selection() matches Some((start, end)) ==> b.valid(start) && b.valid(end)
            && at_or_before(start, end),
{
    lemma_index_in_text(b, b.cursor);
    if let Some(a) = b.anchor {
        lemma_index_in_text(b, a);
        lemma_index_order(b, a, b.cursor);
    }
}

} // verus!
