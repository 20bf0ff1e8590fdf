//! The SQL editor: a text buffer, and the statements in it.
use crate::text;
use vstd::prelude::*;

pub mod buffer;
pub mod split;
pub mod state;

pub use buffer::{Motion, Position, TextBuffer};
pub use state::{EditorCommand, EditorState};
pub use split::{split, ByteSpan, Split, SplitError, SplitErrorKind, Statement};

verus! {

/// What to run.
#[derive(Debug, Clone, Copy, PartialEq, Eq, Structural)]
pub enum RunTarget {
    Cursor,
    Selection,
    Buffer,
}

/// One statement to run: its text, where it stands, and where it starts in the buffer.
#[derive(Debug, Clone, PartialEq, Eq)]
pub struct RunUnit {
    pub sql: String,
    pub span: ByteSpan,
    pub start: Position,
}

/// A `RunUnit` as a value.
pub struct RunUnitView {
    pub sql: Seq<char>,
    pub span: ByteSpan,
    pub start: Position,
}

impl View for RunUnit {
    type V = RunUnitView;

    open spec fn view(&self) -> RunUnitView {
        RunUnitView { sql: self.sql@, span: self.span, start: self.start }
    }
}

impl RunUnit {
    /// A copy of the unit.
    pub fn duplicate(&self) -> (copy: RunUnit)
        ensures
            copy@ == self@,
    {
        RunUnit { sql: self.sql.clone(), span: self.span, start: self.start }
    }
}

/// The byte offset of a place in the buffer.
pub open spec fn offset_in(b: buffer::BufferView, pos: Position) -> int {
    text::byte_offset(b.text(), b.index_of(pos)) as int
}

/// The unit that runs a statement of the buffer's text: the runnable part of the text, where it
/// stands, and the place in the buffer at which it starts.
pub open spec fn is_unit(b: buffer::BufferView, s: Statement, u: RunUnitView) -> bool {
    &&& u.sql == text::byte_slice(b.text(), s.sql_span.start as int, s.sql_span.end as int)
    &&& u.span == s.sql_span
    &&& b.valid(u.start)
    &&& offset_in(b, u.start) == s.sql_span.start
}

/// Whether a run is refused because of the part of the text that could not be split: a run of the
/// whole buffer always is; a run at the cursor is if the cursor stands in that part and not right
/// behind a statement; a run of the selection is if the selection reaches into that part.
pub open spec fn refuses(b: buffer::BufferView, target: RunTarget, v: split::SplitView) -> bool {
    match v.error {
        None => false,
        Some(e) => match target {
            RunTarget::Buffer => true,
            RunTarget::Cursor => {
                &&& offset_in(b, b.cursor) >= e.span.start
                &&& !(exists|j: int|
                    0 <= j < v.statements.len() && (#[trigger] v.statements[j]).span.end
                        == offset_in(b, b.cursor))
            },
            RunTarget::Selection => match b.selection() {
                Some((start, end)) => offset_in(b, start) < e.span.end && e.span.start < offset_in(
                    b,
                    end,
                ),
                None => false,
            },
        },
    }
}

/// The statements that a target names: all of them, the one at the cursor if there is one, or
/// those that the selection touches.
pub open spec fn is_chosen(
    b: buffer::BufferView,
    target: RunTarget,
    s: Seq<Statement>,
    part: Seq<Statement>,
) -> bool {
    match target {
        RunTarget::Buffer => part == s,
        RunTarget::Cursor => if exists|i: int|
            #[trigger] split::is_statement_at(s, offset_in(b, b.cursor), i) {
            exists|i: int|
                #[trigger] split::is_statement_at(s, offset_in(b, b.cursor), i) && part
                    == seq![s[i]]
        } else {
            part.len() == 0
        },
        RunTarget::Selection => match b.selection() {
            Some((start, end)) => split::is_statements_in(
                s,
                offset_in(b, start),
                offset_in(b, end),
                part,
            ),
            None => part.len() == 0,
        },
    }
}

/// The plan for a target: a unit for each statement that the target names.
pub open spec fn is_plan(
    b: buffer::BufferView,
    target: RunTarget,
    s: Seq<Statement>,
    units: Seq<RunUnit>,
) -> bool {
    exists|part: Seq<Statement>| #[trigger]
        is_chosen(b, target, s, part) && units.len() == part.len() && forall|i: int|
            0 <= i < units.len() ==> is_unit(b, part[i], (#[trigger] units[i])@)
}

/// Every statement that a target names is one of the statements.
proof fn lemma_chosen_from(
    b: buffer::BufferView,
    target: RunTarget,
    s: Seq<Statement>,
    part: Seq<Statement>,
)
    requires
        is_chosen(b, target, s, part),
    ensures
        forall|i: int| 0 <= i < part.len() ==> s.contains(#[trigger] part[i]),
{
    assert forall|i: int| 0 <= i < part.len() implies s.contains(#[trigger] part[i]) by {
        match target {
            RunTarget::Buffer => {},
            RunTarget::Cursor => {
                let k = choose|k: int|
                    #[trigger] split::is_statement_at(s, offset_in(b, b.cursor), k) && part
                        == seq![s[k]];
                assert(part[0] == s[k]);
            },
            RunTarget::Selection => {
                let (start, end) = b.selection()->0;
                let a = offset_in(b, start);
                let c = offset_in(b, end);
                let from = if a <= c { a } else { c };
                let to = if a <= c { c } else { a };
                let (first, last) = choose|first: int, last: int|
                    {
                        &&& 0 <= first <= last < s.len()
                        &&& split::overlaps(#[trigger] s[first], from, to)
                        &&& split::overlaps(#[trigger] s[last], from, to)
                        &&& forall|j: int|
                            0 <= j < first ==> !split::overlaps(#[trigger] s[j], from, to)
                        &&& forall|j: int|
                            last < j < s.len() ==> !split::overlaps(#[trigger] s[j], from, to)
                        &&& part == s.subrange(first, last + 1)
                    };
                assert(part[i] == s[first + i]);
            },
        }
    }
}

/// No unit of a plan reaches into the part of the text that could not be split.
pub proof fn law_no_unit_in_unsplit_part(
    b: buffer::BufferView,
    target: RunTarget,
    v: split::SplitView,
    units: Seq<RunUnit>,
)
    requires
        split::well_placed(b.text(), v),
        is_plan(b, target, v.statements, units),
        v.error is Some,
    ensures
        forall|i: int|
            0 <= i < units.len() ==> (#[trigger] units[i]).span.end <= v.error->0.span.start,
{
    let part = choose|part: Seq<Statement>| #[trigger]
        is_chosen(b, target, v.statements, part) && units.len() == part.len() && forall|i: int|
            0 <= i < units.len() ==> is_unit(b, part[i], (#[trigger] units[i])@);
    lemma_chosen_from(b, target, v.statements, part);
    assert forall|i: int| 0 <= i < units.len() implies (#[trigger] units[i]).span.end
        <= v.error->0.span.start by {
        assert(is_unit(b, part[i], units[i]@));
        assert(v.statements.contains(part[i]));
        let k = choose|k: int| 0 <= k < v.statements.len() && v.statements[k] == part[i];
        assert(split::statement_placed(b.text(), v.statements[k]));
    }
}

/// The statement that the cursor stands in, or right behind, is the one that runs, whatever the rest
/// of the text is like. Between two statements, that is the one that has just ended.
pub proof fn law_cursor_runs_its_statement(
    b: buffer::BufferView,
    v: split::SplitView,
    i: int,
    units: Seq<RunUnit>,
)
    requires
        split::well_placed(b.text(), v),
        is_plan(b, RunTarget::Cursor, v.statements, units),
        0 <= i < v.statements.len(),
        v.statements[i].span.start <= offset_in(b, b.cursor) <= v.statements[i].span.end,
        offset_in(b, b.cursor) == v.statements[i].span.start ==> forall|j: int|
            0 <= j < v.statements.len() ==> (#[trigger] v.statements[j]).span.end != offset_in(
                b,
                b.cursor,
            ),
    ensures
        !refuses(b, RunTarget::Cursor, v),
        units.len() == 1,
        is_unit(b, v.statements[i], units[0]@),
{
    let s = v.statements;
    let offset = offset_in(b, b.cursor);
    assert(split::statement_placed(b.text(), s[i]));
    assert forall|j: int| 0 <= j < s.len() && j != i implies (#[trigger] s[j]).span.end != offset
        && (offset < s[i].span.end ==> !split::holds(s[j].span, offset)) by {
        assert(split::statement_placed(b.text(), s[j]));
        if j < i {
            assert(s[j].span.end <= s[i].span.start);
        } else {
            assert(s[i].span.end <= s[j].span.start);
        }
    }
    assert(split::is_statement_at(s, offset, i));
    let part = choose|part: Seq<Statement>| #[trigger]
        is_chosen(b, RunTarget::Cursor, s, part) && units.len() == part.len() && forall|k: int|
            0 <= k < units.len() ==> is_unit(b, part[k], (#[trigger] units[k])@);
    let k = choose|k: int| #[trigger] split::is_statement_at(s, offset, k) && part == seq![s[k]];
    assert(k == i);
    assert(is_unit(b, part[0], units[0]@));
}

/// A run of the selection runs the statements that the selection touches, and no others.
#[verifier::rlimit(40)]
pub proof fn law_selection_runs_what_it_touches(
    b: buffer::BufferView,
    v: split::SplitView,
    units: Seq<RunUnit>,
)
    requires
        b.wf(),
        split::well_placed(b.text(), v),
        is_plan(b, RunTarget::Selection, v.statements, units),
        b.selection() is Some,
    ensures
        forall|i: int|
            0 <= i < v.statements.len() ==> (split::overlaps(
                #[trigger] v.statements[i],
                offset_in(b, (b.selection()->0).0),
                offset_in(b, (b.selection()->0).1),
            ) <==> exists|k: int|
                0 <= k < units.len() && is_unit(b, v.statements[i], (#[trigger] units[k])@)),
        forall|k: int|
            0 <= k < units.len() ==> exists|i: int|
                0 <= i < v.statements.len() && is_unit(b, #[trigger] v.statements[i], (
                #[trigger] units[k])@),
{
    let s = v.statements;
    let (start, end) = b.selection()->0;
    let from = offset_in(b, start);
    let to = offset_in(b, end);
    buffer::lemma_edit_range(b);
    buffer::lemma_index_in_text(b, start);
    buffer::lemma_index_in_text(b, end);
    buffer::lemma_index_order(b, start, end);
    text::lemma_byte_offset_monotone(b.text(), b.index_of(start), b.index_of(end));
    assert(from < to);
    let part = choose|part: Seq<Statement>| #[trigger]
        is_chosen(b, RunTarget::Selection, s, part) && units.len() == part.len() && forall|k: int|
            0 <= k < units.len() ==> is_unit(b, part[k], (#[trigger] units[k])@);
    if exists|j: int| 0 <= j < s.len() && split::overlaps(#[trigger] s[j], from, to) {
        let (first, last) = choose|first: int, last: int|
            {
                &&& 0 <= first <= last < s.len()
                &&& split::overlaps(#[trigger] s[first], from, to)
                &&& split::overlaps(#[trigger] s[last], from, to)
                &&& forall|j: int| 0 <= j < first ==> !split::overlaps(#[trigger] s[j], from, to)
                &&& forall|j: int| last < j < s.len() ==> !split::overlaps(
                    #[trigger] s[j],
                    from,
                    to,
                )
                &&& part == s.subrange(first, last + 1)
            };
        assert forall|i: int| 0 <= i < s.len() implies (split::overlaps(#[trigger] s[i], from, to)
            <==> exists|k: int|
            0 <= k < units.len() && is_unit(b, s[i], (#[trigger] units[k])@)) by {
            assert(split::statement_placed(b.text(), s[i]));
            if first <= i <= last {
                assert(split::statement_placed(b.text(), s[first]));
                assert(split::statement_placed(b.text(), s[last]));
                if first < i {
                    assert(s[first].span.end <= s[i].span.start);
                }
                if i < last {
                    assert(s[i].span.end <= s[last].span.start);
                }
                assert(part[i - first] == s[i]);
                assert(is_unit(b, s[i], units[i - first]@));
            } else if exists|k: int|
                0 <= k < units.len() && is_unit(b, s[i], (#[trigger] units[k])@) {
                let k = choose|k: int|
                    0 <= k < units.len() && is_unit(b, s[i], (#[trigger] units[k])@);
                assert(is_unit(b, part[k], units[k]@));
                let j = first + k;
                assert(part[k] == s[j]);
                assert(s[i].sql_span == s[j].sql_span);
                assert(split::statement_placed(b.text(), s[j]));
                if i < j {
                    assert(s[i].span.end <= s[j].span.start);
                } else {
                    assert(s[j].span.end <= s[i].span.start);
                }
            }
        }
        assert forall|k: int| 0 <= k < units.len() implies exists|i: int|
            0 <= i < s.len() && is_unit(b, #[trigger] s[i], (#[trigger] units[k])@) by {
            assert(is_unit(b, part[k], units[k]@));
            assert(part[k] == s[first + k]);
        }
    }
}

/// The statements that a plan was made of.
proof fn lemma_plan(
    b: buffer::BufferView,
    target: RunTarget,
    s: Seq<Statement>,
    units: Seq<RunUnit>,
) -> (part: Seq<Statement>)
    requires
        is_plan(b, target, s, units),
    ensures
        is_chosen(b, target, s, part),
        units.len() == part.len(),
        forall|i: int| 0 <= i < units.len() ==> is_unit(b, part[i], (#[trigger] units[i])@),
{
    choose|part: Seq<Statement>| #[trigger]
        is_chosen(b, target, s, part) && units.len() == part.len() && forall|i: int|
            0 <= i < units.len() ==> is_unit(b, part[i], (#[trigger] units[i])@)
}

/// A cursor that stands behind the end of a statement, with every later statement behind the cursor,
/// runs that statement: the nearest one before it. With the cursor behind the last statement, that is
/// the last one.
pub proof fn law_cursor_behind_runs_the_nearest(
    b: buffer::BufferView,
    v: split::SplitView,
    i: int,
    units: Seq<RunUnit>,
)
    requires
        split::well_placed(b.text(), v),
        is_plan(b, RunTarget::Cursor, v.statements, units),
        0 <= i < v.statements.len(),
        v.statements[i].span.end <= offset_in(b, b.cursor),
        forall|j: int|
            i < j < v.statements.len() ==> offset_in(b, b.cursor) < (
            #[trigger] v.statements[j]).span.start,
    ensures
        units.len() == 1,
        units[0].span == v.statements[i].sql_span,
        is_unit(b, v.statements[i], units[0]@),
{
    let s = v.statements;
    let offset = offset_in(b, b.cursor);
    assert(split::statement_placed(b.text(), s[i]));
    assert forall|j: int| 0 <= j < s.len() && j != i implies (#[trigger] s[j]).span.end != offset
        && !split::holds(s[j].span, offset) by {
        assert(split::statement_placed(b.text(), s[j]));
        if j < i {
            assert(s[j].span.end <= s[i].span.start);
        }
    }
    assert forall|j: int| i < j < s.len() implies !((#[trigger] s[j]).span.end <= offset) by {
        assert(split::statement_placed(b.text(), s[j]));
    }
    assert(split::is_statement_at(s, offset, i));
    let part = lemma_plan(b, RunTarget::Cursor, s, units);
    let k = choose|k: int| #[trigger] split::is_statement_at(s, offset, k) && part == seq![s[k]];
    if k < i {
        assert(s[i].span.end <= offset);
    }
    assert(k == i);
    assert(is_unit(b, part[0], units[0]@));
}

/// A cursor before the first statement runs nothing.
pub proof fn law_cursor_before_everything_runs_nothing(
    b: buffer::BufferView,
    v: split::SplitView,
    units: Seq<RunUnit>,
)
    requires
        split::well_placed(b.text(), v),
        is_plan(b, RunTarget::Cursor, v.statements, units),
        forall|j: int|
            0 <= j < v.statements.len() ==> offset_in(b, b.cursor) < (
            #[trigger] v.statements[j]).span.start,
    ensures
        units.len() == 0,
{
    let s = v.statements;
    let offset = offset_in(b, b.cursor);
    assert forall|i: int| !#[trigger] split::is_statement_at(s, offset, i) by {
        if 0 <= i < s.len() {
            assert(split::statement_placed(b.text(), s[i]));
            assert forall|j: int| 0 <= j < s.len() implies (#[trigger] s[j]).span.end != offset
                && !split::holds(s[j].span, offset) by {
                assert(split::statement_placed(b.text(), s[j]));
            }
        }
    }
    let part = lemma_plan(b, RunTarget::Cursor, s, units);
}

/// A run of the whole buffer runs every statement, in the order of the text.
pub proof fn law_buffer_runs_everything(
    b: buffer::BufferView,
    s: Seq<Statement>,
    units: Seq<RunUnit>,
)
    requires
        is_plan(b, RunTarget::Buffer, s, units),
    ensures
        units.len() == s.len(),
        forall|i: int| 0 <= i < s.len() ==> (#[trigger] units[i]).span == s[i].sql_span,
{
    let part = lemma_plan(b, RunTarget::Buffer, s, units);
    assert forall|i: int| 0 <= i < s.len() implies (#[trigger] units[i]).span == s[i].sql_span by {
        assert(is_unit(b, part[i], units[i]@));
    }
}

/// A run of a buffer whose text could be split to its end runs all of it: every token that is neither
/// whitespace nor a comment, and ends no statement, is in what one of the units runs.
pub proof fn law_buffer_runs_every_token(
    b: buffer::BufferView,
    tokens: Seq<split::SqlToken>,
    error: Option<Seq<char>>,
    units: Seq<RunUnit>,
    i: int,
)
    requires
        split::tiles(b.text(), tokens, error is None),
        text::byte_len(b.text()) <= usize::MAX,
        split::split_of(b.text(), tokens, error).error is None,
        is_plan(
            b,
            RunTarget::Buffer,
            split::split_of(b.text(), tokens, error).statements,
            units,
        ),
        0 <= i < tokens.len(),
        tokens[i].kind is LParen || tokens[i].kind is RParen || tokens[i].kind is SemiColon
            || tokens[i].kind is Other,
        !split::is_end(tokens, i),
    ensures
        exists|k: int|
            0 <= k < units.len() && (#[trigger] units[k]).span.start <= split::offset_at(
                b.text(),
                tokens[i].start,
            ) && split::offset_at(b.text(), tokens[i].end) <= units[k].span.end,
{
    let s = split::split_of(b.text(), tokens, error).statements;
    split::law_every_token_is_run(b.text(), tokens, error, i, i);
    law_buffer_runs_everything(b, s, units);
    let k = choose|k: int| #[trigger]
        split::covers_both(b.text(), s, k, tokens[i], tokens[i]);
    assert(units[k].span == s[k].sql_span);
}

/// Whether `u` is a piece of the buffer's text: its text is what stands between two places, it starts
/// at the first of them, and its span counts the bytes before each of them.
pub open spec fn is_piece(b: buffer::BufferView, u: RunUnitView) -> bool {
    let i = b.index_of(u.start);
    &&& b.valid(u.start)
    &&& exists|j: int|
        i < j <= b.text().len() && u.sql == #[trigger] b.text().subrange(i, j) && u.span.start
            == text::byte_len(b.text().take(i)) && u.span.end == text::byte_len(b.text().take(j))
}

/// What runs is a piece of the buffer's text, never empty, and the pieces stand in the order of the
/// text without touching a byte twice.
pub proof fn law_units_are_pieces_of_the_text(
    b: buffer::BufferView,
    target: RunTarget,
    v: split::SplitView,
    units: Seq<RunUnit>,
)
    requires
        b.wf(),
        split::well_placed(b.text(), v),
        is_plan(b, target, v.statements, units),
    ensures
        forall|k: int| 0 <= k < units.len() ==> is_piece(b, (#[trigger] units[k])@),
        forall|k: int, l: int|
            0 <= k < l < units.len() ==> (#[trigger] units[k]).span.end <= (
            #[trigger] units[l]).span.start,
{
    let s = v.statements;
    let part = lemma_plan(b, target, s, units);
    lemma_chosen_from(b, target, s, part);
    let t = b.text();
    assert forall|k: int| 0 <= k < units.len() implies is_piece(b, (#[trigger] units[k])@) by {
        let u = units[k]@;
        assert(is_unit(b, part[k], u));
        assert(s.contains(part[k]));
        let x = choose|x: int| 0 <= x < s.len() && s[x] == part[k];
        assert(split::statement_placed(t, s[x]));
        let i = b.index_of(u.start);
        buffer::lemma_index_in_text(b, u.start);
        let j = choose|j: int|
            0 <= j <= t.len() && u.span.end == #[trigger] text::byte_offset(t, j);
        if j <= i {
            text::lemma_byte_offset_monotone(t, j, i);
        }
        text::lemma_byte_slice(t, i, j);
        assert(u.sql == t.subrange(i, j));
    }
    assert forall|k: int, l: int| 0 <= k < l < units.len() implies (#[trigger] units[k]).span.end
        <= (#[trigger] units[l]).span.start by {
        assert(is_unit(b, part[k], units[k]@));
        assert(is_unit(b, part[l], units[l]@));
        let (x, y) = lemma_chosen_order(b, target, s, part, k, l);
        assert(split::statement_placed(t, s[x]));
        assert(split::statement_placed(t, s[y]));
        assert(s[x].span.end <= s[y].span.start);
    }
}

/// The statements that a target names stand in the order of the text.
proof fn lemma_chosen_order(
    b: buffer::BufferView,
    target: RunTarget,
    s: Seq<Statement>,
    part: Seq<Statement>,
    k: int,
    l: int,
) -> (r: (int, int))
    requires
        is_chosen(b, target, s, part),
        0 <= k < l < part.len(),
    ensures
        0 <= r.0 < r.1 < s.len(),
        part[k] == s[r.0],
        part[l] == s[r.1],
{
    match target {
        RunTarget::Buffer => (k, l),
        RunTarget::Cursor => (k, l),
        RunTarget::Selection => {
            let (start, end) = b.selection()->0;
            let a = offset_in(b, start);
            let c = offset_in(b, end);
            let from = if a <= c { a } else { c };
            let to = if a <= c { c } else { a };
            let (first, last) = choose|first: int, last: int|
                {
                    &&& 0 <= first <= last < s.len()
                    &&& split::overlaps(#[trigger] s[first], from, to)
                    &&& split::overlaps(#[trigger] s[last], from, to)
                    &&& forall|j: int|
                        0 <= j < first ==> !split::overlaps(#[trigger] s[j], from, to)
                    &&& forall|j: int|
                        last < j < s.len() ==> !split::overlaps(#[trigger] s[j], from, to)
                    &&& part == s.subrange(first, last + 1)
                };
            (first + k, first + l)
        },
    }
}

/// Whether a byte of the text lies in the selection and in the part of a statement that is run.
pub open spec fn selects_byte(b: buffer::BufferView, s: Statement, x: int) -> bool {
    &&& b.selection() matches Some((start, end)) && text::byte_len(
        b.text().take(b.index_of(start)),
    ) <= x < text::byte_len(b.text().take(b.index_of(end)))
    &&& s.sql_span.start <= x < s.sql_span.end
}

/// A run of the selection runs a statement exactly where a byte of it is selected; without a
/// selection it runs nothing.
pub proof fn law_selection_runs_what_is_selected(
    b: buffer::BufferView,
    v: split::SplitView,
    units: Seq<RunUnit>,
)
    requires
        b.wf(),
        split::well_placed(b.text(), v),
        is_plan(b, RunTarget::Selection, v.statements, units),
    ensures
        forall|i: int|
            0 <= i < v.statements.len() ==> ((exists|x: int| #[trigger]
                selects_byte(b, #[trigger] v.statements[i], x)) <==> exists|k: int|
                0 <= k < units.len() && (#[trigger] units[k]).span == v.statements[i].sql_span),
        b.selection() is None ==> units.len() == 0,
{
    let s = v.statements;
    if b.selection() is None {
        let part = lemma_plan(b, RunTarget::Selection, s, units);
    } else {
        let (start, end) = b.selection()->0;
        let from = offset_in(b, start);
        let to = offset_in(b, end);
        law_selection_runs_what_it_touches(b, v, units);
        buffer::lemma_edit_range(b);
        buffer::lemma_index_in_text(b, start);
        buffer::lemma_index_in_text(b, end);
        buffer::lemma_index_order(b, start, end);
        text::lemma_byte_offset_monotone(b.text(), b.index_of(start), b.index_of(end));
        let part = lemma_plan(b, RunTarget::Selection, s, units);
        assert forall|i: int| 0 <= i < s.len() implies ((exists|x: int| #[trigger]
            selects_byte(b, #[trigger] s[i], x)) <==> exists|k: int|
            0 <= k < units.len() && (#[trigger] units[k]).span == s[i].sql_span) by {
            assert(split::statement_placed(b.text(), s[i]));
            if split::overlaps(s[i], from, to) {
                let x = if from <= s[i].sql_span.start { s[i].sql_span.start as int } else { from };
                assert(selects_byte(b, s[i], x));
                let k = choose|k: int|
                    0 <= k < units.len() && is_unit(b, s[i], (#[trigger] units[k])@);
                assert(units[k].span == s[i].sql_span);
            }
            if exists|k: int| 0 <= k < units.len() && (#[trigger] units[k]).span == s[i].sql_span {
                let k = choose|k: int|
                    0 <= k < units.len() && (#[trigger] units[k]).span == s[i].sql_span;
                let j = choose|j: int|
                    0 <= j < s.len() && is_unit(b, #[trigger] s[j], units[k]@);
                assert(split::statement_placed(b.text(), s[j]));
                if i < j {
                    assert(s[i].span.end <= s[j].span.start);
                } else if j < i {
                    assert(s[j].span.end <= s[i].span.start);
                }
                assert(i == j);
            }
        }
    }
}

/// A run is refused only where there is a part of the text that could not be split: for the whole
/// buffer always; at the cursor if it stands behind the beginning of that part, or at it with no
/// statement ending there; for a selection if it reaches past the beginning of that part.
pub proof fn law_refused_where_unsplit(
    b: buffer::BufferView,
    target: RunTarget,
    v: split::SplitView,
)
    requires
        b.wf(),
        split::well_placed(b.text(), v),
    ensures
        v.error is None ==> !refuses(b, target, v),
        v.error matches Some(e) ==> {
            &&& refuses(b, RunTarget::Buffer, v)
            &&& e.span.start < offset_in(b, b.cursor) ==> refuses(b, RunTarget::Cursor, v)
            &&& offset_in(b, b.cursor) < e.span.start ==> !refuses(b, RunTarget::Cursor, v)
            &&& e.span.start == offset_in(b, b.cursor) ==> (refuses(b, RunTarget::Cursor, v) <==> (
            v.statements.len() == 0 || v.statements.last().span.end < e.span.start))
            &&& b.selection() is None ==> !refuses(b, RunTarget::Selection, v)
            &&& b.selection() matches Some((_, end)) ==> (refuses(b, RunTarget::Selection, v) <==> e.span.start
                < offset_in(b, end))
        },
{
    let s = v.statements;
    if v.error is Some {
        let e = v.error->0;
        if s.len() > 0 {
            let last = s.len() - 1;
            assert(s[last].span.end <= e.span.start);
            assert forall|j: int| 0 <= j < last implies (#[trigger] s[j]).span.end < s[last].span.end by {
                assert(split::statement_placed(b.text(), s[last]));
                assert(s[j].span.end <= s[last].span.start);
            }
        }
        if b.selection() is Some {
            let (start, end) = b.selection()->0;
            buffer::lemma_edit_range(b);
            buffer::lemma_index_in_text(b, start);
            buffer::lemma_index_in_text(b, end);
            buffer::lemma_index_order(b, start, end);
            text::lemma_byte_offset_monotone(b.text(), b.index_of(start), b.index_of(end));
        }
    }
}

/// Builds the unit for one statement.
fn unit_of(buffer: &TextBuffer, text: &str, s: &Statement) -> (u: RunUnit)
    requires
        buffer@.wf(),
        text@ == buffer@.text(),
        split::statement_placed(text@, *s),
    ensures
        is_unit(buffer@, *s, u@),
{
    let start: Position = buffer.position_of(s.sql_span.start);
    proof {
        let t = text@;
        let k = choose|k: int|
            0 <= k <= t.len() && s.sql_span.start == #[trigger] text::byte_offset(t, k);
        let i = buffer@.index_of(start);
        buffer::lemma_index_in_text(buffer@, start);
        if i < k {
            text::lemma_byte_offset_monotone(t, i + 1, k);
        } else if k < i {
            text::lemma_byte_offset_monotone(t, k, i);
        }
    }
    RunUnit { sql: s.sql_span.slice(text).to_owned(), span: s.sql_span, start }
}

/// Plans a run of a buffer whose text has been split.
///
/// A run of the whole buffer is refused if any part of the text could not be split. At the cursor
/// and for a selection, it is refused where they touch that part. "Nothing to run" is an empty
/// plan, not an error.
pub fn plan_split(buffer: &TextBuffer, target: RunTarget, split: &Split) -> (r: Result<
    Vec<RunUnit>,
    SplitError,
>)
    requires
        buffer@.wf(),
        text::byte_len(buffer@.text()) <= usize::MAX,
        split::well_placed(buffer@.text(), split@),
    ensures
        r is Err <==> refuses(buffer@, target, split@),
        r matches Err(e) ==> e@ == split@.error->0,
        r matches Ok(units) ==> is_plan(buffer@, target, split@.statements, units@),
{
    let text: String = buffer.text();
    proof {
        buffer::lemma_edit_range(buffer@);
        assert(buffer@.clamped(buffer@.cursor) == buffer@.cursor);
        assert(buffer@.selection() matches Some((s, e)) ==> buffer@.clamped(s) == s
            && buffer@.clamped(e) == e);
    }
    if let Some(err) = split.error() {
        let propagate: bool = match target {
            RunTarget::Buffer => true,
            RunTarget::Cursor => {
                let offset: usize = buffer.offset_of(buffer.cursor());
                let at_end: bool = match split.statement_at(offset) {
                    Some(s) => s.span.end == offset,
                    None => false,
                };
                proof {
                    let s = split@.statements;
                    if exists|j: int| 0 <= j < s.len() && (#[trigger] s[j]).span.end == offset {
                        let j = choose|j: int|
                            0 <= j < s.len() && (#[trigger] s[j]).span.end == offset;
                        split::lemma_statement_at_exists(s, offset as int, j);
                    }
                }
                offset >= err.span.start && !at_end
            },
            RunTarget::Selection => match buffer.selection() {
                Some((start, end)) => {
                    let start_off: usize = buffer.offset_of(start);
                    let end_off: usize = buffer.offset_of(end);
                    start_off < err.span.end && err.span.start < end_off
                },
                None => false,
            },
        };
        if propagate {
            return Err(err.duplicate());
        }
    }
    let mut units: Vec<RunUnit> = Vec::new();
    match target {
        RunTarget::Buffer => {
            push_units(buffer, text.as_str(), split.statements(), &mut units);
            proof {
                assert(is_chosen(buffer@, target, split@.statements, split@.statements));
            }
        },
        RunTarget::Cursor => {
            let offset: usize = buffer.offset_of(buffer.cursor());
            match split.statement_at(offset) {
                Some(s) => {
                    proof {
                        let i = choose|i: int| #[trigger]
                            split::is_statement_at(split@.statements, offset as int, i) && *s
                                == split@.statements[i];
                        assert(split::statement_placed(
                            buffer@.text(),
                            split@.statements[i],
                        ));
                        assert(offset == offset_in(buffer@, buffer@.cursor));
                        assert(split::is_statement_at(
                            split@.statements,
                            offset_in(buffer@, buffer@.cursor),
                            i,
                        ));
                        assert(seq![*s] =~= seq![split@.statements[i]]);
                        assert(is_chosen(buffer@, target, split@.statements, seq![*s]));
                    }
                    units.push(unit_of(buffer, text.as_str(), s));
                },
                None => {
                    proof {
                        assert(is_chosen(buffer@, target, split@.statements, Seq::empty()));
                    }
                },
            }
        },
        RunTarget::Selection => match buffer.selection() {
            Some((start, end)) => {
                let start_off: usize = buffer.offset_of(start);
                let end_off: usize = buffer.offset_of(end);
                let part: &[Statement] = split.statements_in(start_off, end_off);
                proof {
                    assert(is_chosen(buffer@, target, split@.statements, part@));
                    lemma_chosen_from(buffer@, target, split@.statements, part@);
                    assert forall|i: int| 0 <= i < part@.len() implies split::statement_placed(
                        buffer@.text(),
                        #[trigger] part@[i],
                    ) by {
                        let k = choose|k: int|
                            0 <= k < split@.statements.len() && split@.statements[k] == part@[i];
                        assert(split::statement_placed(buffer@.text(), split@.statements[k]));
                    }
                }
                push_units(buffer, text.as_str(), part, &mut units);
            },
            None => {
                proof {
                    assert(is_chosen(buffer@, target, split@.statements, Seq::empty()));
                }
            },
        },
    }
    Ok(units)
}

/// Adds the units of some statements.
fn push_units(buffer: &TextBuffer, text: &str, part: &[Statement], units: &mut Vec<RunUnit>)
    requires
        buffer@.wf(),
        text@ == buffer@.text(),
        old(units)@.len() == 0,
        forall|i: int|
            0 <= i < part@.len() ==> split::statement_placed(text@, #[trigger] part@[i]),
    ensures
        final(units)@.len() == part@.len(),
        forall|i: int|
            0 <= i < part@.len() ==> is_unit(buffer@, part@[i], (#[trigger] final(units)@[i])@),
{
    let n: usize = part.len();
    let mut i: usize = 0;
    while i < n
        invariant
            n == part@.len(),
            i <= n,
            buffer@.wf(),
            text@ == buffer@.text(),
            units@.len() == i,
            forall|j: int|
                0 <= j < part@.len() ==> split::statement_placed(text@, #[trigger] part@[j]),
            forall|j: int|
                0 <= j < i ==> is_unit(buffer@, part@[j], (#[trigger] units@[j])@),
        decreases n - i,
    {
        let unit: RunUnit = unit_of(buffer, text, &part[i]);
        units.push(unit);
        i = i + 1;
    }
}

/// What the statements of a buffer's text are, from the tokenizer's result.
pub open spec fn split_view(text: Seq<char>) -> split::SplitView {
    split::split_of(text, split::token_stream(text).0, split::token_stream(text).1)
}

/// Splits the buffer's text and plans a run of what `target` names in it.
pub fn plan_run(buffer: &TextBuffer, target: RunTarget) -> (r: Result<Vec<RunUnit>, SplitError>)
    requires
        buffer@.wf(),
    ensures
        r is Err <==> refuses(buffer@, target, split_view(buffer@.text())),
        r matches Err(e) ==> e@ == split_view(buffer@.text()).error->0,
        r matches Ok(units) ==> is_plan(
            buffer@,
            target,
            split_view(buffer@.text()).statements,
            units@,
        ),
{
    let text: String = buffer.text();
    let whole: usize = text::byte_count(text.as_str());
    let split: Split = split::split(text.as_str());
    plan_split(buffer, target, &split)
}

} // verus!
