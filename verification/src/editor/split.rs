//! Where the statements of an SQL text begin and end.
use crate::text;
use sqlparser::dialect::PostgreSqlDialect;
use sqlparser::tokenizer::Token::{LParen, RParen, SemiColon, Whitespace};
use sqlparser::tokenizer::Tokenizer;
use sqlparser::tokenizer::Whitespace::{Newline, Space, Tab};
use vstd::prelude::*;

verus! {

/// Byte range into the text that was split. `end` is exclusive.
#[derive(Debug, Clone, Copy, PartialEq, Eq, Structural)]
pub struct ByteSpan {
    pub start: usize,
    pub end: usize,
}

impl ByteSpan {
    /// Whether the span lies between two character boundaries of `text`.
    pub open spec fn fits(self, text: Seq<char>) -> bool {
        &&& self.start <= self.end
        &&& text::is_boundary(text, self.start as int)
        &&& text::is_boundary(text, self.end as int)
    }

    pub fn is_empty(self) -> (empty: bool)
        ensures
            empty == (self.start >= self.end),
    {
        self.start >= self.end
    }

    pub fn contains(self, offset: usize) -> (inside: bool)
        ensures
            inside == (self.start <= offset < self.end),
    {
        self.start <= offset && offset < self.end
    }

    /// The part of `text` that the span covers.
    pub fn slice(self, text: &str) -> (part: &str)
        requires
            self.fits(text@),
        ensures
            part@ == text::byte_slice(text@, self.start as int, self.end as int),
    {
        let ghost i = choose|k: int|
            0 <= k <= text@.len() && self.start == #[trigger] text::byte_offset(text@, k);
        let ghost j = choose|k: int|
            0 <= k <= text@.len() && self.end == #[trigger] text::byte_offset(text@, k);
        proof {
            if j < i {
                text::lemma_byte_offset_monotone(text@, j, i);
            }
            text::lemma_byte_slice(text@, i, j);
            text::lemma_byte_offset_split(text@, i, j);
        }
        let rest: &str = text::suffix_at(text, self.start, Ghost(i));
        proof {
            assert(rest@.take(j - i) =~= text@.subrange(i, j));
        }
        text::prefix_at(rest, self.end - self.start, Ghost(j - i))
    }

    /// The part of `text` that the span covers, or `None` where it does not fit the text.
    pub fn try_slice(self, text: &str) -> (part: Option<&str>)
        ensures
            part is Some <==> self.fits(text@),
            part matches Some(p) ==> p@ == text::byte_slice(
                text@,
                self.start as int,
                self.end as int,
            ),
    {
        let whole: usize = text::byte_count(text);
        if self.start <= self.end && self.end <= whole && text.is_char_boundary(self.start)
            && text.is_char_boundary(self.end) {
            proof {
                let i = text::lemma_boundary_index(text@, self.start as int);
                let j = text::lemma_boundary_index(text@, self.end as int);
            }
            Some(self.slice(text))
        } else {
            proof {
                if self.fits(text@) {
                    let i = choose|k: int|
                        0 <= k <= text@.len() && self.start == #[trigger] text::byte_offset(
                            text@,
                            k,
                        );
                    let j = choose|k: int|
                        0 <= k <= text@.len() && self.end == #[trigger] text::byte_offset(
                            text@,
                            k,
                        );
                    text::lemma_char_boundary(text@, i);
                    text::lemma_char_boundary(text@, j);
                    text::lemma_byte_offset_monotone(text@, j, text@.len() as int);
                }
            }
            None
        }
    }
}

/// One statement of a text.
#[derive(Debug, Clone, Copy, PartialEq, Eq, Structural)]
pub struct Statement {
    /// The whole segment: from just past the previous terminator (or the start of the text) to
    /// just past this statement's `;` (or the end of the text).
    pub span: ByteSpan,
    /// The part to run: from the first token that is not bare whitespace to the last one, the
    /// terminator excluded and comments kept.
    pub sql_span: ByteSpan,
}

/// Why the end of a text is not a statement.
#[derive(Debug, Clone, Copy, PartialEq, Eq, Structural)]
pub enum SplitErrorKind {
    /// The tokenizer stopped before the end of the text.
    Tokenize,
    /// A `(` is never closed, so no `;` after it ends a statement.
    UnclosedParen,
}

/// The end of a text that is not a statement: everything after the last `;` that ended one.
#[derive(Debug, Clone, PartialEq, Eq)]
pub struct SplitError {
    pub kind: SplitErrorKind,
    pub message: String,
    pub span: ByteSpan,
}

/// A `SplitError` as a value.
pub struct SplitErrorView {
    pub kind: SplitErrorKind,
    pub message: Seq<char>,
    pub span: ByteSpan,
}

impl View for SplitError {
    type V = SplitErrorView;

    open spec fn view(&self) -> SplitErrorView {
        SplitErrorView { kind: self.kind, message: self.message@, span: self.span }
    }
}

impl SplitError {
    /// A copy of the error.
    pub fn duplicate(&self) -> (copy: SplitError)
        ensures
            copy@ == self@,
    {
        SplitError { kind: self.kind, message: self.message.clone(), span: self.span }
    }
}

/// A 1-based line and character column.
#[derive(Debug, Clone, Copy, PartialEq, Eq, Structural)]
pub struct Location {
    pub line: u64,
    pub column: u64,
}

/// What a token is, as far as splitting cares.
#[derive(Debug, Clone, Copy, PartialEq, Eq, Structural)]
pub enum TokenKind {
    LParen,
    RParen,
    SemiColon,
    Space,
    Newline,
    Tab,
    Comment,
    Other,
}

/// A token and the place it takes, from `start` up to but not including `end`.
#[derive(Debug, Clone, Copy, PartialEq, Eq, Structural)]
pub struct SqlToken {
    pub kind: TokenKind,
    pub start: Location,
    pub end: Location,
}

/// Whether `loc` is the place before the character with index `k`.
pub open spec fn is_location(loc: Location, text: Seq<char>, k: int) -> bool {
    let upto = text::lines_of(text.take(k));
    loc.line == upto.len() && loc.column == upto.last().len() + 1
}

/// The index of the character at a location. A line or column of 0 counts as 1; a line past
/// the last one counts as the last, a column past a line's end as its end.
pub open spec fn index_at(text: Seq<char>, loc: Location) -> int {
    let lines = text::lines_of(text);
    let line = if loc.line < 1 {
        0
    } else if loc.line > lines.len() {
        lines.len() - 1
    } else {
        loc.line - 1
    };
    let column = if loc.column < 1 {
        0
    } else {
        loc.column - 1
    };
    text::terminated(lines.take(line)).len() + (if column <= lines[line].len() {
        column
    } else {
        lines[line].len() as int
    })
}

/// The byte offset of a location.
pub open spec fn offset_at(text: Seq<char>, loc: Location) -> int {
    text::byte_offset(text, index_at(text, loc)) as int
}

/// A location names an index of the text.
pub proof fn lemma_index_at_in_text(text: Seq<char>, loc: Location)
    ensures
        0 <= index_at(text, loc) <= text.len(),
{
    let lines = text::lines_of(text);
    text::lemma_lines_of(text);
    let line = if loc.line < 1 {
        0
    } else if loc.line > lines.len() {
        lines.len() - 1
    } else {
        loc.line - 1
    };
    text::lemma_line_in_text(text, line, index_at(text, loc) - text::terminated(lines.take(line)).len());
}

/// The location of an index leads back to the index.
pub proof fn lemma_location_round_trip(text: Seq<char>, k: int, loc: Location)
    requires
        0 <= k <= text.len(),
        is_location(loc, text, k),
    ensures
        index_at(text, loc) == k,
{
    text::lemma_lines_of_prefix(text, k);
    text::lemma_lines_of(text.take(k));
}

/// Where the lines of a text begin, and the last location that was looked up.
pub struct LineIndex {
    starts: Vec<usize>,
    memo_line: usize,
    memo_col: u64,
    memo_offset: usize,
}

impl LineIndex {
    /// The index belongs to `text`: the offsets of all its line starts, and a remembered
    /// location with its offset.
    pub closed spec fn wf(&self, text: Seq<char>) -> bool {
        let lines = text::lines_of(text);
        &&& self.starts@.len() == lines.len()
        &&& forall|i: int|
            0 <= i < lines.len() ==> #[trigger] self.starts@[i] == text::byte_len(
                text::terminated(lines.take(i)),
            )
        &&& self.memo_line < lines.len()
        &&& self.memo_line < u64::MAX
        &&& self.memo_col >= 1
        &&& self.memo_offset == offset_at(
            text,
            Location { line: (self.memo_line + 1) as u64, column: self.memo_col },
        )
    }

    /// Finds the line starts of a text.
    pub fn build(text: &str) -> (index: Self)
        ensures
            index.wf(text@),
    {
        let total: usize = text::byte_count(text);
        let mut starts: Vec<usize> = Vec::new();
        starts.push(0);
        let mut offset: usize = 0;
        proof {
            assert(text@.take(0) =~= Seq::<char>::empty());
            let lines = text::lines_of(text@.take(0));
            assert(lines.take(0) =~= Seq::<Seq<char>>::empty());
        }
        for c in it: text.chars()
            invariant
                it.seq() == text@,
                total == text::byte_len(text@),
                offset == text::byte_offset(text@, it.index() as int),
                starts@.len() == text::lines_of(text@.take(it.index() as int)).len(),
                forall|i: int|
                    0 <= i < starts@.len() ==> #[trigger] starts@[i] == text::byte_len(
                        text::terminated(text::lines_of(text@.take(it.index() as int)).take(i)),
                    ),
        {
            let ghost k = it.index() as int;
            let ghost before = text::lines_of(text@.take(k));
            let ghost after = text::lines_of(text@.take(k + 1));
            let ghost old_starts = starts@;
            proof {
                text::lemma_byte_offset_step(text@, k);
                text::lemma_byte_offset_monotone(text@, k + 1, text@.len() as int);
                text::lemma_lines_of(text@.take(k));
                assert(text@.take(k + 1).drop_last() =~= text@.take(k));
                assert(text@.take(k + 1).last() == text@[k]);
            }
            offset = offset + text::width_of(c);
            if c == '\n' {
                starts.push(offset);
                proof {
                    assert(after.take(before.len() as int) =~= before);
                    assert(text::terminated(before) =~= text::joined(before).push('\n'));
                    assert(text@.take(k + 1) =~= text@.take(k).push('\n'));
                }
            }
            proof {
                assert forall|i: int| 0 <= i < starts@.len() implies #[trigger] starts@[i]
                    == text::byte_len(text::terminated(after.take(i))) by {
                    if i < old_starts.len() {
                        assert(starts@[i] == old_starts[i]);
                        assert(after.take(i) =~= before.take(i));
                    }
                }
            }
        }
        proof {
            assert(text@.take(text@.len() as int) =~= text@);
            let lines = text::lines_of(text@);
            text::lemma_lines_of(text@);
            assert(lines.take(0) =~= Seq::<Seq<char>>::empty());
            assert(text@.take(0) =~= Seq::<char>::empty());
        }
        LineIndex { starts, memo_line: 0, memo_col: 1, memo_offset: 0 }
    }

    /// Converts a location into a byte offset. An unknown or out-of-range line or column counts
    /// as the nearest one that exists.
    ///
    /// Remembers the location: a later one on the same line is looked up from there.
    pub fn byte_offset_at(&mut self, text: &str, line: u64, column: u64) -> (offset: usize)
        requires
            old(self).wf(text@),
        ensures
            final(self).wf(text@),
            offset == offset_at(text@, Location { line, column }),
    {
        let ghost lines = text::lines_of(text@);
        let ghost loc = Location { line, column };
        let column: u64 = if column < 1 {
            1
        } else {
            column
        };
        let last: usize = self.starts.len() - 1;
        let line_idx: usize = if line < 1 {
            0
        } else if line - 1 < last as u64 {
            (line - 1) as usize
        } else {
            last
        };
        let ghost base = text::terminated(lines.take(line_idx as int)).len();
        let ghost width = lines[line_idx as int].len();
        let ghost memo = Location { line: (self.memo_line + 1) as u64, column: self.memo_col };
        let mut offset: usize;
        let mut remaining: u64;
        let ghost mut k: int;
        if line_idx == self.memo_line && column >= self.memo_col {
            offset = self.memo_offset;
            remaining = column - self.memo_col;
            proof {
                k = index_at(text@, memo);
            }
        } else {
            offset = self.starts[line_idx];
            remaining = column - 1;
            proof {
                k = base as int;
            }
        }
        proof {
            text::lemma_lines_of(text@);
            lemma_index_at_in_text(text@, memo);
            text::lemma_line_in_text(text@, line_idx as int, 0);
            text::lemma_line_in_text(text@, line_idx as int, width as int);
            text::lemma_joined_at(lines, line_idx as int);
            assert(text@.take(base as int) =~= text::terminated(lines.take(line_idx as int)));
        }
        if remaining > 0 {
            let rest: &str = text::suffix_at(text, offset, Ghost(k));
            let total: usize = text::byte_count(text);
            let mut chars = rest.chars();
            while remaining > 0
                invariant_except_break
                    vstd::std_specs::iter::IteratorSpec::remaining(&chars) == text@.skip(k),
                invariant
                    lines == text::lines_of(text@),
                    line_idx < lines.len(),
                    base == text::terminated(lines.take(line_idx as int)).len(),
                    width == lines[line_idx as int].len(),
                    base <= k <= base + width <= text@.len(),
                    total == text::byte_len(text@),
                    offset == text::byte_offset(text@, k),
                    k == base + width || k + remaining == base + column - 1,
                    k == base + width ==> k + remaining <= base + column - 1,
                ensures
                    base <= k <= base + width,
                    offset == text::byte_offset(text@, k),
                    k == base + column - 1 || (k == base + width && k <= base + column - 1),
                decreases remaining,
            {
                match chars.next() {
                    None => {
                        proof {
                            assert(text@.skip(k).len() == 0);
                        }
                        break ;
                    },
                    Some(c) => {
                        proof {
                            assert(text@.skip(k)[0] == text@[k]);
                            text::lemma_line_in_text(text@, line_idx as int, k - base);
                        }
                        if c == '\n' {
                            break ;
                        }
                        proof {
                            text::lemma_byte_offset_step(text@, k);
                            text::lemma_byte_offset_monotone(text@, k + 1, text@.len() as int);
                            assert(text@.skip(k).drop_first() =~= text@.skip(k + 1));
                        }
                        offset = offset + text::width_of(c);
                        remaining = remaining - 1;
                        proof {
                            k = k + 1;
                        }
                    },
                }
            }
        }
        self.memo_line = line_idx;
        self.memo_col = column;
        self.memo_offset = offset;
        offset
    }
}

/// What the tokenizer makes of a text: the tokens, and the message of the error that stopped it.
pub uninterp spec fn token_stream(text: Seq<char>) -> (Seq<SqlToken>, Option<Seq<char>>);

/// The tokens stand one behind the other, each at least one character long: token `i` takes the
/// characters from `cuts[i]` to `cuts[i + 1]`. A semicolon token is one character, a `;`.
pub open spec fn cut_at(text: Seq<char>, tokens: Seq<SqlToken>, cuts: Seq<int>) -> bool {
    &&& cuts.len() == tokens.len() + 1
    &&& cuts[0] == 0
    &&& cuts.last() <= text.len()
    &&& forall|i: int, j: int| 0 <= i < j < cuts.len() ==> #[trigger] cuts[i] < #[trigger] cuts[j]
    &&& forall|i: int|
        0 <= i < tokens.len() ==> is_location((#[trigger] tokens[i]).start, text, cuts[i])
            && is_location(tokens[i].end, text, cuts[i + 1])
    &&& forall|i: int|
        0 <= i < tokens.len() && (#[trigger] tokens[i]).kind is SemiColon ==> cuts[i + 1] == cuts[i]
            + 1 && text[cuts[i]] == ';'
}

/// The tokens tile a prefix of the text, or all of it.
pub open spec fn tiles(text: Seq<char>, tokens: Seq<SqlToken>, all: bool) -> bool {
    exists|cuts: Seq<int>|
        #[trigger] cut_at(text, tokens, cuts) && (all ==> cuts.last() == text.len())
}

/// Calls `sqlparser::tokenizer::Tokenizer::tokenize_with_location_into_buf` for the Postgres
/// dialect.
///
/// Claimed of it: what it returns depends on the text alone; its tokens start at the beginning
/// of the text, each starts where the one before it ends and is at least one character long, and
/// their locations count lines and characters from 1, an end being exclusive; a semicolon token
/// is a single `;`; without an error the tokens reach the end of the text.
#[verifier::external_body]
fn tokenize(text: &str) -> (r: (Vec<SqlToken>, Option<String>))
    ensures
        r.0@ == token_stream(text@).0,
        r.1 is Some <==> token_stream(text@).1 is Some,
        r.1 is Some ==> r.1->0@ == token_stream(text@).1->0,
        tiles(text@, r.0@, r.1 is None),
{
    let mut buf = Vec::new();
    let done = Tokenizer::new(&PostgreSqlDialect {}, text).tokenize_with_location_into_buf(&mut buf);
    let tokens = buf.iter().map(|t| SqlToken {
        kind: match &t.token {
            LParen => TokenKind::LParen,
            RParen => TokenKind::RParen,
            SemiColon => TokenKind::SemiColon,
            Whitespace(Space) => TokenKind::Space,
            Whitespace(Newline) => TokenKind::Newline,
            Whitespace(Tab) => TokenKind::Tab,
            Whitespace(_) => TokenKind::Comment,
            _ => TokenKind::Other },
        start: Location { line: t.span.start.line, column: t.span.start.column },
        end: Location { line: t.span.end.line, column: t.span.end.column } });
    (tokens.collect(), done.err().map(|e| e.to_string()))
}

/// Whitespace that is no comment.
pub open spec fn bare_whitespace(kind: TokenKind) -> bool {
    kind is Space || kind is Newline || kind is Tab
}

/// Neither whitespace nor a comment.
pub open spec fn significant(kind: TokenKind) -> bool {
    !bare_whitespace(kind) && !(kind is Comment)
}

fn is_bare_whitespace(kind: TokenKind) -> (bare: bool)
    ensures
        bare == bare_whitespace(kind),
{
    match kind {
        TokenKind::Space | TokenKind::Newline | TokenKind::Tab => true,
        _ => false,
    }
}

/// How many parentheses the first `n` tokens leave open; a `)` too many closes nothing.
pub open spec fn depth_after(tokens: Seq<SqlToken>, n: int) -> int
    decreases n,
{
    if n <= 0 {
        0
    } else {
        let before = depth_after(tokens, n - 1);
        match tokens[n - 1].kind {
            TokenKind::LParen => before + 1,
            TokenKind::RParen => if before > 0 {
                before - 1
            } else {
                0
            },
            _ => before,
        }
    }
}

/// A `;` outside all parentheses ends a segment.
pub open spec fn terminates(tokens: Seq<SqlToken>, i: int) -> bool {
    tokens[i].kind is SemiColon && depth_after(tokens, i) == 0
}

/// The first token of the segment that is open before token `n`.
pub open spec fn segment_begin(tokens: Seq<SqlToken>, n: int) -> int
    decreases n,
{
    if n <= 0 {
        0
    } else if terminates(tokens, n - 1) {
        n
    } else {
        segment_begin(tokens, n - 1)
    }
}

/// The byte offset at which the segment that is open before token `n` begins.
pub open spec fn segment_offset(text: Seq<char>, tokens: Seq<SqlToken>, n: int) -> int {
    let begin = segment_begin(tokens, n);
    if begin == 0 {
        0
    } else {
        offset_at(text, tokens[begin - 1].end)
    }
}

/// Whether one of the tokens from `a` up to `b` is significant.
pub open spec fn has_significant(tokens: Seq<SqlToken>, a: int, b: int) -> bool {
    exists|i: int| a <= i < b && significant((#[trigger] tokens[i]).kind)
}

/// The first token from `a` up to `b` that is not bare whitespace; `b` if there is none.
pub open spec fn first_kept(tokens: Seq<SqlToken>, a: int, b: int) -> int
    decreases b - a,
{
    if a >= b {
        b
    } else if !bare_whitespace(tokens[a].kind) {
        a
    } else {
        first_kept(tokens, a + 1, b)
    }
}

/// The last token from `a` up to `b` that is not bare whitespace; `a - 1` if there is none.
pub open spec fn last_kept(tokens: Seq<SqlToken>, a: int, b: int) -> int
    decreases b - a,
{
    if a >= b {
        a - 1
    } else if !bare_whitespace(tokens[b - 1].kind) {
        b - 1
    } else {
        last_kept(tokens, a, b - 1)
    }
}

/// The statement made of the segment that is open before token `n`, and that ends at byte `end`.
pub open spec fn statement_of(text: Seq<char>, tokens: Seq<SqlToken>, n: int, end: int) -> Statement {
    let begin = segment_begin(tokens, n);
    Statement {
        span: ByteSpan { start: segment_offset(text, tokens, n) as usize, end: end as usize },
        sql_span: ByteSpan {
            start: offset_at(text, tokens[first_kept(tokens, begin, n)].start) as usize,
            end: offset_at(text, tokens[last_kept(tokens, begin, n)].end) as usize,
        },
    }
}

/// The statements that a `;` among the first `n` tokens ends. A segment without a significant
/// token is no statement.
pub open spec fn statements_before(text: Seq<char>, tokens: Seq<SqlToken>, n: int) -> Seq<Statement>
    decreases n,
{
    if n <= 0 {
        Seq::empty()
    } else {
        let before = statements_before(text, tokens, n - 1);
        if terminates(tokens, n - 1) && has_significant(
            tokens,
            segment_begin(tokens, n - 1),
            n - 1,
        ) {
            before.push(statement_of(text, tokens, n - 1, offset_at(text, tokens[n - 1].end)))
        } else {
            before
        }
    }
}

/// The message for a `(` that is never closed.
pub open spec fn unclosed_message() -> Seq<char> {
    "unclosed `(`: the trailing statement is incomplete"@
}

/// A `Split` as a value.
pub struct SplitView {
    pub statements: Seq<Statement>,
    pub error: Option<SplitErrorView>,
}

/// Why the last segment is not a statement, if the tokenizer stopped with `error`.
pub open spec fn cause_of(tokens: Seq<SqlToken>, error: Option<Seq<char>>) -> Option<
    (SplitErrorKind, Seq<char>),
> {
    match error {
        Some(message) => Some((SplitErrorKind::Tokenize, message)),
        None => if depth_after(tokens, tokens.len() as int) > 0 {
            Some((SplitErrorKind::UnclosedParen, unclosed_message()))
        } else {
            None
        },
    }
}

/// The statements of a text, from its tokens. The last segment is a statement only if the whole
/// text was tokenized and no parenthesis is left open; else it is the error's span.
pub open spec fn split_of(
    text: Seq<char>,
    tokens: Seq<SqlToken>,
    error: Option<Seq<char>>,
) -> SplitView {
    let n = tokens.len() as int;
    let ended = statements_before(text, tokens, n);
    match cause_of(tokens, error) {
        None => SplitView {
            statements: if has_significant(tokens, segment_begin(tokens, n), n) {
                ended.push(statement_of(text, tokens, n, offset_at(text, tokens[n - 1].end)))
            } else {
                ended
            },
            error: None,
        },
        Some((kind, message)) => SplitView {
            statements: ended,
            error: Some(
                SplitErrorView {
                    kind,
                    message,
                    span: ByteSpan {
                        start: segment_offset(text, tokens, n) as usize,
                        end: text::byte_len(text) as usize,
                    },
                },
            ),
        },
    }
}

proof fn lemma_segment_begin(tokens: Seq<SqlToken>, n: int)
    requires
        0 <= n,
    ensures
        0 <= segment_begin(tokens, n) <= n,
        segment_begin(tokens, n) > 0 ==> terminates(tokens, segment_begin(tokens, n) - 1),
        forall|i: int| segment_begin(tokens, n) <= i < n ==> !terminates(tokens, i),
    decreases n,
{
    if n > 0 && !terminates(tokens, n - 1) {
        lemma_segment_begin(tokens, n - 1);
    }
}

proof fn lemma_first_kept(tokens: Seq<SqlToken>, a: int, b: int, f: int)
    requires
        a <= f < b,
        !bare_whitespace(tokens[f].kind),
        forall|i: int| a <= i < f ==> bare_whitespace((#[trigger] tokens[i]).kind),
    ensures
        first_kept(tokens, a, b) == f,
    decreases b - a,
{
    if a < f {
        lemma_first_kept(tokens, a + 1, b, f);
    }
}

proof fn lemma_last_kept(tokens: Seq<SqlToken>, a: int, b: int, l: int)
    requires
        a <= l < b,
        !bare_whitespace(tokens[l].kind),
        forall|i: int| l < i < b ==> bare_whitespace((#[trigger] tokens[i]).kind),
    ensures
        last_kept(tokens, a, b) == l,
    decreases b - a,
{
    if l < b - 1 {
        lemma_last_kept(tokens, a, b - 1, l);
    }
}

/// A text, split into its statements.
#[derive(Debug, Clone)]
pub struct Split {
    statements: Vec<Statement>,
    error: Option<SplitError>,
}

impl View for Split {
    type V = SplitView;

    closed spec fn view(&self) -> SplitView {
        SplitView {
            statements: self.statements@,
            error: match self.error {
                Some(e) => Some(e@),
                None => None,
            },
        }
    }
}

impl Default for Split {
    fn default() -> (s: Self)
        ensures
            s@ == (SplitView { statements: Seq::empty(), error: None }),
    {
        Split { statements: Vec::new(), error: None }
    }
}

/// Splits a text into its statements, given its tokens and the message of the error that stopped
/// the tokenizer.
pub fn split_tokens(text: &str, tokens: &Vec<SqlToken>, error: Option<String>) -> (r: Split)
    ensures
        r@ == split_of(
            text@,
            tokens@,
            match error {
                Some(m) => Some(m@),
                None => None,
            },
        ),
{
    let mut line_index: LineIndex = LineIndex::build(text);
    let whole: usize = text::byte_count(text);
    let mut statements: Vec<Statement> = Vec::new();
    let mut depth: usize = 0;
    let mut seg_start: usize = 0;
    let mut seg_has_significant: bool = false;
    let mut seg_first: usize = 0;
    let mut seg_last_end: usize = 0;
    let mut seg_kept: bool = false;
    let mut last_tok_end: usize = 0;
    let ghost mut first: int = 0;
    let ghost mut last: int = 0;
    let n: usize = tokens.len();
    let mut i: usize = 0;
    while i < n
        invariant
            n == tokens@.len(),
            i <= n,
            line_index.wf(text@),
            depth <= i,
            depth == depth_after(tokens@, i as int),
            seg_start == segment_offset(text@, tokens@, i as int),
            statements@ == statements_before(text@, tokens@, i as int),
            0 <= segment_begin(tokens@, i as int) <= i,
            seg_has_significant == has_significant(
                tokens@,
                segment_begin(tokens@, i as int),
                i as int,
            ),
            seg_has_significant ==> seg_kept,
            !seg_kept ==> forall|j: int|
                segment_begin(tokens@, i as int) <= j < i ==> bare_whitespace(
                    (#[trigger] tokens@[j]).kind,
                ),
            seg_kept ==> segment_begin(tokens@, i as int) <= first <= last < i,
            seg_kept ==> !bare_whitespace(tokens@[first].kind) && !bare_whitespace(
                tokens@[last].kind,
            ),
            seg_kept ==> forall|j: int|
                segment_begin(tokens@, i as int) <= j < first ==> bare_whitespace(
                    (#[trigger] tokens@[j]).kind,
                ),
            seg_kept ==> forall|j: int|
                last < j < i ==> bare_whitespace((#[trigger] tokens@[j]).kind),
            seg_kept ==> seg_first == offset_at(text@, tokens@[first].start),
            seg_kept ==> seg_last_end == offset_at(text@, tokens@[last].end),
            i > 0 ==> last_tok_end == offset_at(text@, tokens@[i - 1].end),
        decreases n - i,
    {
        let tok: SqlToken = tokens[i];
        let tok_start: usize = line_index.byte_offset_at(text, tok.start.line, tok.start.column);
        let tok_end: usize = line_index.byte_offset_at(text, tok.end.line, tok.end.column);
        last_tok_end = tok_end;
        proof {
            assert(Location { line: tok.start.line, column: tok.start.column } == tok.start);
            assert(Location { line: tok.end.line, column: tok.end.column } == tok.end);
        }
        let ghost begin = segment_begin(tokens@, i as int);
        match tok.kind {
            TokenKind::LParen => {
                depth = depth + 1;
            },
            TokenKind::RParen => {
                if depth > 0 {
                    depth = depth - 1;
                }
            },
            _ => {},
        }
        if tok.kind == TokenKind::SemiColon && depth == 0 {
            if seg_has_significant {
                proof {
                    lemma_first_kept(tokens@, begin, i as int, first);
                    lemma_last_kept(tokens@, begin, i as int, last);
                }
                statements.push(
                    Statement {
                        span: ByteSpan { start: seg_start, end: tok_end },
                        sql_span: ByteSpan { start: seg_first, end: seg_last_end },
                    },
                );
            }
            seg_start = tok_end;
            seg_has_significant = false;
            seg_kept = false;
            proof {
                assert(terminates(tokens@, i as int));
            }
        } else {
            proof {
                assert(!terminates(tokens@, i as int));
                assert(segment_begin(tokens@, i + 1) == begin);
            }
            let bare: bool = is_bare_whitespace(tok.kind);
            if !bare && tok.kind != TokenKind::Comment {
                seg_has_significant = true;
                proof {
                    assert(significant(tokens@[i as int].kind));
                }
            } else {
                proof {
                    assert(has_significant(tokens@, begin, i + 1) ==> has_significant(
                        tokens@,
                        begin,
                        i as int,
                    ));
                }
            }
            if !bare {
                if !seg_kept {
                    seg_first = tok_start;
                    seg_kept = true;
                    proof {
                        first = i as int;
                    }
                }
                seg_last_end = tok_end;
                proof {
                    last = i as int;
                }
            }
        }
        i = i + 1;
    }
    let ghost begin = segment_begin(tokens@, n as int);
    let cause: Option<(SplitErrorKind, String)> = match error {
        Some(message) => Some((SplitErrorKind::Tokenize, message)),
        None => if depth > 0 {
            Some(
                (
                    SplitErrorKind::UnclosedParen,
                    "unclosed `(`: the trailing statement is incomplete".to_owned(),
                ),
            )
        } else {
            None
        },
    };
    let error: Option<SplitError> = match cause {
        None => {
            if seg_has_significant {
                proof {
                    lemma_first_kept(tokens@, begin, n as int, first);
                    lemma_last_kept(tokens@, begin, n as int, last);
                }
                statements.push(
                    Statement {
                        span: ByteSpan { start: seg_start, end: last_tok_end },
                        sql_span: ByteSpan { start: seg_first, end: seg_last_end },
                    },
                );
            }
            None
        },
        Some((kind, message)) => Some(
            SplitError { kind, message, span: ByteSpan { start: seg_start, end: whole } },
        ),
    };
    Split { statements, error }
}

/// The statements of a split lie in the text, one behind the other, and before the part that
/// could not be split: each has something to run, within its own segment.
pub open spec fn well_placed(text: Seq<char>, v: SplitView) -> bool {
    &&& forall|i: int|
        0 <= i < v.statements.len() ==> statement_placed(text, #[trigger] v.statements[i])
    &&& forall|i: int, j: int|
        0 <= i < j < v.statements.len() ==> (#[trigger] v.statements[i]).span.end <= (
        #[trigger] v.statements[j]).span.start
    &&& v.error matches Some(e) ==> {
        &&& e.span.fits(text)
        &&& e.span.end == text::byte_len(text)
        &&& forall|i: int|
            0 <= i < v.statements.len() ==> (#[trigger] v.statements[i]).span.end <= e.span.start
    }
}

/// A statement's parts lie in the text; the part to run lies in the segment and is not empty.
pub open spec fn statement_placed(text: Seq<char>, s: Statement) -> bool {
    &&& s.span.fits(text)
    &&& s.sql_span.fits(text)
    &&& s.span.start <= s.sql_span.start < s.sql_span.end <= s.span.end
}

proof fn lemma_cut_offsets(text: Seq<char>, tokens: Seq<SqlToken>, cuts: Seq<int>, i: int)
    requires
        cut_at(text, tokens, cuts),
        0 <= i < tokens.len(),
    ensures
        0 <= cuts[i] < cuts[i + 1] <= text.len(),
        offset_at(text, tokens[i].start) == text::byte_offset(text, cuts[i]),
        offset_at(text, tokens[i].end) == text::byte_offset(text, cuts[i + 1]),
        offset_at(text, tokens[i].start) < offset_at(text, tokens[i].end),
        text::is_boundary(text, offset_at(text, tokens[i].start)),
        text::is_boundary(text, offset_at(text, tokens[i].end)),
        offset_at(text, tokens[i].end) <= text::byte_len(text),
{
    if i > 0 {
        assert(cuts[0] < cuts[i]);
    }
    assert(cuts[i] < cuts[i + 1]);
    if i + 1 < tokens.len() {
        assert(cuts[i + 1] < cuts[cuts.len() - 1]);
    }
    lemma_location_round_trip(text, cuts[i], tokens[i].start);
    lemma_location_round_trip(text, cuts[i + 1], tokens[i].end);
    text::lemma_byte_offset_monotone(text, cuts[i], cuts[i + 1]);
}

proof fn lemma_cut_order(text: Seq<char>, tokens: Seq<SqlToken>, cuts: Seq<int>, i: int, j: int)
    requires
        cut_at(text, tokens, cuts),
        0 <= i <= j < tokens.len(),
    ensures
        offset_at(text, tokens[i].start) <= offset_at(text, tokens[j].start),
        offset_at(text, tokens[i].end) <= offset_at(text, tokens[j].end),
        i < j ==> offset_at(text, tokens[i].end) <= offset_at(text, tokens[j].start),
{
    lemma_cut_offsets(text, tokens, cuts, i);
    lemma_cut_offsets(text, tokens, cuts, j);
    if i < j {
        assert(cuts[i] < cuts[j]);
        assert(cuts[i + 1] < cuts[j + 1]);
        if i + 1 < j {
            assert(cuts[i + 1] < cuts[j]);
        }
        text::lemma_byte_offset_monotone(text, cuts[i], cuts[j]);
        text::lemma_byte_offset_monotone(text, cuts[i + 1], cuts[j]);
        text::lemma_byte_offset_monotone(text, cuts[i + 1], cuts[j + 1]);
    }
}

/// The first and the last kept token of a range that holds a significant one.
proof fn lemma_kept_range(tokens: Seq<SqlToken>, a: int, b: int)
    requires
        has_significant(tokens, a, b),
    ensures
        a <= first_kept(tokens, a, b) <= last_kept(tokens, a, b) < b,
    decreases b - a,
{
    let w = choose|i: int| a <= i < b && significant((#[trigger] tokens[i]).kind);
    lemma_first_kept_at_most(tokens, a, b, w);
    lemma_last_kept_at_least(tokens, a, b, w);
}

proof fn lemma_first_kept_at_most(tokens: Seq<SqlToken>, a: int, b: int, w: int)
    requires
        a <= w < b,
        !bare_whitespace(tokens[w].kind),
    ensures
        a <= first_kept(tokens, a, b) <= w,
    decreases b - a,
{
    if a < w && bare_whitespace(tokens[a].kind) {
        lemma_first_kept_at_most(tokens, a + 1, b, w);
    }
}

proof fn lemma_last_kept_at_least(tokens: Seq<SqlToken>, a: int, b: int, w: int)
    requires
        a <= w < b,
        !bare_whitespace(tokens[w].kind),
    ensures
        w <= last_kept(tokens, a, b) < b,
    decreases b - a,
{
    if w < b - 1 && bare_whitespace(tokens[b - 1].kind) {
        lemma_last_kept_at_least(tokens, a, b - 1, w);
    }
}

/// The open segment begins at a boundary, not after the tokens that follow.
proof fn lemma_segment_offset(text: Seq<char>, tokens: Seq<SqlToken>, cuts: Seq<int>, n: int)
    requires
        cut_at(text, tokens, cuts),
        0 <= n <= tokens.len(),
    ensures
        0 <= segment_begin(tokens, n) <= n,
        0 <= segment_offset(text, tokens, n) <= text::byte_len(text),
        text::is_boundary(text, segment_offset(text, tokens, n)),
        forall|i: int|
            segment_begin(tokens, n) <= i < tokens.len() ==> segment_offset(text, tokens, n)
                <= offset_at(text, (#[trigger] tokens[i]).start),
{
    lemma_segment_begin(tokens, n);
    let begin = segment_begin(tokens, n);
    if begin == 0 {
        assert(text.take(0) =~= Seq::<char>::empty());
        assert(text::byte_offset(text, 0) == 0);
    } else {
        lemma_cut_offsets(text, tokens, cuts, begin - 1);
        assert forall|i: int| begin <= i < tokens.len() implies segment_offset(text, tokens, n)
            <= offset_at(text, (#[trigger] tokens[i]).start) by {
            lemma_cut_order(text, tokens, cuts, begin - 1, i);
        }
    }
}

/// A segment with a significant token makes a statement that lies in the text.
proof fn lemma_statement_placed(
    text: Seq<char>,
    tokens: Seq<SqlToken>,
    cuts: Seq<int>,
    n: int,
    end: int,
)
    requires
        cut_at(text, tokens, cuts),
        0 <= n <= tokens.len(),
        has_significant(tokens, segment_begin(tokens, n), n),
        text::byte_len(text) <= usize::MAX,
        text::is_boundary(text, end),
        end <= text::byte_len(text),
        n > 0 ==> offset_at(text, tokens[n - 1].end) <= end,
    ensures
        statement_placed(text, statement_of(text, tokens, n, end)),
        statement_of(text, tokens, n, end).span.start == segment_offset(text, tokens, n),
        statement_of(text, tokens, n, end).span.end == end,
{
    let begin = segment_begin(tokens, n);
    lemma_segment_offset(text, tokens, cuts, n);
    lemma_kept_range(tokens, begin, n);
    let f = first_kept(tokens, begin, n);
    let l = last_kept(tokens, begin, n);
    lemma_cut_offsets(text, tokens, cuts, f);
    lemma_cut_offsets(text, tokens, cuts, l);
    lemma_cut_order(text, tokens, cuts, f, l);
    lemma_cut_order(text, tokens, cuts, l, n - 1);
    assert(segment_offset(text, tokens, n) <= offset_at(text, tokens[f].start));
}

/// A statement that starts no earlier than all others end can follow them.
proof fn lemma_push_placed(text: Seq<char>, before: Seq<Statement>, s: Statement)
    requires
        well_placed(text, SplitView { statements: before, error: None }),
        forall|i: int|
            0 <= i < before.len() ==> (#[trigger] before[i]).span.end <= s.span.start,
        statement_placed(text, s),
    ensures
        well_placed(text, SplitView { statements: before.push(s), error: None }),
{
    let v = SplitView { statements: before, error: None };
    let w = SplitView { statements: before.push(s), error: None };
    assert forall|i: int| 0 <= i < w.statements.len() implies statement_placed(
        text,
        #[trigger] w.statements[i],
    ) by {
        if i < before.len() {
            assert(statement_placed(text, v.statements[i]));
        }
    }
    assert forall|i: int, j: int| 0 <= i < j < w.statements.len() implies (
    #[trigger] w.statements[i]).span.end <= (#[trigger] w.statements[j]).span.start by {
        if j < before.len() {
            assert(v.statements[i].span.end <= v.statements[j].span.start);
        } else {
            assert(before[i].span.end <= s.span.start);
        }
    }
}

proof fn lemma_statements_placed(text: Seq<char>, tokens: Seq<SqlToken>, cuts: Seq<int>, n: int)
    requires
        cut_at(text, tokens, cuts),
        0 <= n <= tokens.len(),
        text::byte_len(text) <= usize::MAX,
    ensures
        well_placed(
            text,
            SplitView { statements: statements_before(text, tokens, n), error: None },
        ),
        forall|i: int|
            0 <= i < statements_before(text, tokens, n).len() ==> (#[trigger] statements_before(
                text,
                tokens,
                n,
            )[i]).span.end <= segment_offset(text, tokens, n),
    decreases n,
{
    if n > 0 {
        lemma_statements_placed(text, tokens, cuts, n - 1);
        lemma_segment_offset(text, tokens, cuts, n - 1);
        lemma_cut_offsets(text, tokens, cuts, n - 1);
        let before = statements_before(text, tokens, n - 1);
        let end = offset_at(text, tokens[n - 1].end);
        if terminates(tokens, n - 1) {
            assert(segment_offset(text, tokens, n) == end);
            assert(segment_offset(text, tokens, n - 1) <= offset_at(text, tokens[n - 1].start));
            if has_significant(tokens, segment_begin(tokens, n - 1), n - 1) {
                if n - 1 > 0 {
                    lemma_cut_order(text, tokens, cuts, n - 2, n - 1);
                }
                lemma_statement_placed(text, tokens, cuts, n - 1, end);
                lemma_push_placed(text, before, statement_of(text, tokens, n - 1, end));
            }
        }
    }
}

/// Every statement of a split lies in the text and has something to run; statements follow one
/// another without overlap; none reaches into the part that could not be split, which goes to
/// the end of the text.
pub proof fn law_split_well_placed(text: Seq<char>, tokens: Seq<SqlToken>, error: Option<Seq<char>>)
    requires
        tiles(text, tokens, error is None),
        text::byte_len(text) <= usize::MAX,
    ensures
        well_placed(text, split_of(text, tokens, error)),
{
    let cuts = choose|cuts: Seq<int>|
        #[trigger] cut_at(text, tokens, cuts) && (error is None ==> cuts.last() == text.len());
    let n = tokens.len() as int;
    lemma_statements_placed(text, tokens, cuts, n);
    lemma_segment_offset(text, tokens, cuts, n);
    assert(text.take(text.len() as int) =~= text);
    assert(text::byte_offset(text, text.len() as int) == text::byte_len(text));
    if cause_of(tokens, error) is None && has_significant(tokens, segment_begin(tokens, n), n) {
        lemma_segment_begin(tokens, n);
        lemma_kept_range(tokens, segment_begin(tokens, n), n);
        lemma_cut_offsets(text, tokens, cuts, n - 1);
        let end = offset_at(text, tokens[n - 1].end);
        lemma_statement_placed(text, tokens, cuts, n, end);
        lemma_push_placed(
            text,
            statements_before(text, tokens, n),
            statement_of(text, tokens, n, end),
        );
    }
    let v = SplitView { statements: statements_before(text, tokens, n), error: None };
    let w = split_of(text, tokens, error);
    if w.error is Some {
        assert(w.statements == v.statements);
    }
}

/// Whether token `j` ends a segment that is no statement: one without a significant token.
pub open spec fn ends_empty_segment(tokens: Seq<SqlToken>, j: int) -> bool {
    terminates(tokens, j) && !has_significant(tokens, segment_begin(tokens, j), j)
}

/// Whether a segment that is no statement ends behind the offset `a`, and not behind `b`.
pub open spec fn empty_between(text: Seq<char>, tokens: Seq<SqlToken>, a: int, b: int) -> bool {
    exists|j: int|
        0 <= j < tokens.len() && #[trigger] ends_empty_segment(tokens, j) && a < offset_at(
            text,
            tokens[j].end,
        ) <= b
}

/// The offset behind the last statement; the beginning of the text if there is none.
pub open spec fn end_of_last(s: Seq<Statement>) -> int {
    if s.len() > 0 {
        s.last().span.end as int
    } else {
        0
    }
}

/// Whether a `;` stands right before the offset.
pub open spec fn behind_semicolon(text: Seq<char>, offset: int) -> bool {
    exists|k: int|
        0 < k <= text.len() && offset == #[trigger] text::byte_offset(text, k) && text[k - 1] == ';'
}

/// Whether what begins at `b` follows what ends at `a`: at once, exactly if no segment that is no
/// statement lies in between.
pub open spec fn follows(text: Seq<char>, tokens: Seq<SqlToken>, a: int, b: int) -> bool {
    a == b <==> !empty_between(text, tokens, a, b)
}

/// Whether statement `i + 1` follows statement `i`.
pub open spec fn next_follows(
    text: Seq<char>,
    tokens: Seq<SqlToken>,
    s: Seq<Statement>,
    i: int,
) -> bool {
    follows(text, tokens, s[i].span.end as int, s[i + 1].span.start as int)
}

/// The open segment, and every statement before it, begins at the beginning of the text or right
/// behind a `;`, and every statement before it ends in one.
proof fn lemma_semicolons_before(text: Seq<char>, tokens: Seq<SqlToken>, cuts: Seq<int>, n: int)
    requires
        cut_at(text, tokens, cuts),
        0 <= n <= tokens.len(),
        text::byte_len(text) <= usize::MAX,
    ensures
        ({
            let s = statements_before(text, tokens, n);
            let open = segment_offset(text, tokens, n);
            &&& open == 0 || behind_semicolon(text, open)
            &&& forall|i: int|
                0 <= i < s.len() ==> behind_semicolon(text, (#[trigger] s[i]).span.end as int) && (
                s[i].span.start == 0 || behind_semicolon(text, s[i].span.start as int))
        }),
    decreases n,
{
    if n > 0 {
        lemma_semicolons_before(text, tokens, cuts, n - 1);
        lemma_segment_offset(text, tokens, cuts, n - 1);
        lemma_cut_offsets(text, tokens, cuts, n - 1);
        let end = offset_at(text, tokens[n - 1].end);
        if terminates(tokens, n - 1) {
            assert(behind_semicolon(text, end)) by {
                assert(tokens[n - 1].kind is SemiColon);
                assert(text::byte_offset(text, cuts[n]) == end);
            }
            if n - 1 > 0 {
                lemma_cut_order(text, tokens, cuts, n - 2, n - 1);
            }
            assert(segment_offset(text, tokens, n) == end);
            let before = statements_before(text, tokens, n - 1);
            let s = statements_before(text, tokens, n);
            if has_significant(tokens, segment_begin(tokens, n - 1), n - 1) {
                lemma_statement_placed(text, tokens, cuts, n - 1, end);
                assert(s == before.push(statement_of(text, tokens, n - 1, end)));
                assert forall|i: int| 0 <= i < s.len() implies behind_semicolon(
                    text,
                    (#[trigger] s[i]).span.end as int,
                ) && (s[i].span.start == 0 || behind_semicolon(text, s[i].span.start as int)) by {
                    if i < before.len() {
                        assert(s[i] == before[i]);
                    }
                }
            }
        } else {
            assert(segment_offset(text, tokens, n) == segment_offset(text, tokens, n - 1));
            assert(statements_before(text, tokens, n) == statements_before(text, tokens, n - 1));
        }
    }
}

/// Each statement before the open segment follows the one before it, and the open segment follows
/// the last of them.
#[verifier::rlimit(40)]
proof fn lemma_followed_before(text: Seq<char>, tokens: Seq<SqlToken>, cuts: Seq<int>, n: int)
    requires
        cut_at(text, tokens, cuts),
        0 <= n <= tokens.len(),
        text::byte_len(text) <= usize::MAX,
    ensures
        ({
            let s = statements_before(text, tokens, n);
            &&& follows(text, tokens, end_of_last(s), segment_offset(text, tokens, n))
            &&& s.len() > 0 ==> follows(text, tokens, 0, s[0].span.start as int)
            &&& forall|i: int|
                0 <= i < s.len() - 1 ==> #[trigger] next_follows(text, tokens, s, i)
        }),
    decreases n,
{
    if n > 0 {
        lemma_followed_before(text, tokens, cuts, n - 1);
        lemma_statements_placed(text, tokens, cuts, n - 1);
        lemma_segment_offset(text, tokens, cuts, n - 1);
        lemma_cut_offsets(text, tokens, cuts, n - 1);
        let before = statements_before(text, tokens, n - 1);
        let s = statements_before(text, tokens, n);
        let end = offset_at(text, tokens[n - 1].end);
        if terminates(tokens, n - 1) {
            assert(segment_offset(text, tokens, n) == end);
            if n - 1 > 0 {
                lemma_cut_order(text, tokens, cuts, n - 2, n - 1);
            }
            if has_significant(tokens, segment_begin(tokens, n - 1), n - 1) {
                lemma_statement_placed(text, tokens, cuts, n - 1, end);
                assert(s == before.push(statement_of(text, tokens, n - 1, end)));
                assert(!empty_between(text, tokens, end, end));
                lemma_push_follows(text, tokens, before, s.last());
            } else {
                assert(ends_empty_segment(tokens, n - 1));
                if before.len() > 0 {
                    assert(before[before.len() - 1].span.end <= segment_offset(text, tokens, n - 1));
                }
                assert(segment_offset(text, tokens, n - 1) <= offset_at(text, tokens[n - 1].start));
                assert(end_of_last(before) < end);
                assert(empty_between(text, tokens, end_of_last(before), end));
            }
        }
    } else {
        assert(!empty_between(text, tokens, 0, 0));
    }
}

/// A statement that follows the last of those before it keeps them in order.
proof fn lemma_push_follows(
    text: Seq<char>,
    tokens: Seq<SqlToken>,
    before: Seq<Statement>,
    last: Statement,
)
    requires
        follows(text, tokens, end_of_last(before), last.span.start as int),
        before.len() > 0 ==> follows(text, tokens, 0, before[0].span.start as int),
        forall|i: int|
            0 <= i < before.len() - 1 ==> #[trigger] next_follows(text, tokens, before, i),
    ensures
        follows(text, tokens, 0, before.push(last)[0].span.start as int),
        forall|i: int|
            0 <= i < before.len() ==> #[trigger] next_follows(text, tokens, before.push(last), i),
{
    let s = before.push(last);
    assert forall|i: int| 0 <= i < before.len() implies #[trigger] next_follows(
        text,
        tokens,
        s,
        i,
    ) by {
        assert(s[i] == before[i]);
        if i + 1 < before.len() {
            assert(s[i + 1] == before[i + 1]);
            assert(next_follows(text, tokens, before, i));
        }
    }
}

/// The segment that is open behind the last token makes the last statement, if it makes one.
proof fn lemma_segments_of_split(
    text: Seq<char>,
    tokens: Seq<SqlToken>,
    error: Option<Seq<char>>,
    cuts: Seq<int>,
)
    requires
        cut_at(text, tokens, cuts),
        text::byte_len(text) <= usize::MAX,
    ensures
        ({
            let n = tokens.len() as int;
            let ended = statements_before(text, tokens, n);
            let v = split_of(text, tokens, error);
            &&& v.error matches Some(e) ==> v.statements == ended && e.span.start == segment_offset(
                text,
                tokens,
                n,
            )
            &&& v.statements == ended || (v.error is None && v.statements.len() == ended.len() + 1
                && v.statements.drop_last() == ended && v.statements.last().span.start
                == segment_offset(text, tokens, n))
        }),
{
    let n = tokens.len() as int;
    lemma_segment_offset(text, tokens, cuts, n);
    if cause_of(tokens, error) is None && has_significant(tokens, segment_begin(tokens, n), n) {
        lemma_segment_begin(tokens, n);
        lemma_kept_range(tokens, segment_begin(tokens, n), n);
        lemma_cut_offsets(text, tokens, cuts, n - 1);
        lemma_statement_placed(text, tokens, cuts, n, offset_at(text, tokens[n - 1].end));
        let ended = statements_before(text, tokens, n);
        assert(split_of(text, tokens, error).statements.drop_last() =~= ended);
    }
}

/// Segments are contiguous: the first statement's segment starts at the beginning of the text, each
/// other one where the one before it ends, and the part that could not be split where the last one
/// ends, exactly where no segment that is no statement lies in between.
pub proof fn law_segments_contiguous(
    text: Seq<char>,
    tokens: Seq<SqlToken>,
    error: Option<Seq<char>>,
)
    requires
        tiles(text, tokens, error is None),
        text::byte_len(text) <= usize::MAX,
    ensures
        ({
            let v = split_of(text, tokens, error);
            let s = v.statements;
            &&& s.len() > 0 ==> follows(text, tokens, 0, s[0].span.start as int)
            &&& forall|i: int|
                0 <= i < s.len() - 1 ==> #[trigger] next_follows(text, tokens, s, i)
            &&& v.error matches Some(e) ==> follows(
                text,
                tokens,
                end_of_last(s),
                e.span.start as int,
            )
        }),
{
    let cuts = choose|cuts: Seq<int>|
        #[trigger] cut_at(text, tokens, cuts) && (error is None ==> cuts.last() == text.len());
    let n = tokens.len() as int;
    let ended = statements_before(text, tokens, n);
    let s = split_of(text, tokens, error).statements;
    lemma_followed_before(text, tokens, cuts, n);
    lemma_segments_of_split(text, tokens, error, cuts);
    if s.len() > ended.len() {
        assert(s =~= ended.push(s.last()));
        lemma_push_follows(text, tokens, ended, s.last());
    }
}

/// Every statement but the last ends in a `;`, and so does the last one where a part of the text could
/// not be split; every statement, and that part, begins at the beginning of the text or right behind
/// a `;`.
pub proof fn law_semicolons_end_statements(
    text: Seq<char>,
    tokens: Seq<SqlToken>,
    error: Option<Seq<char>>,
)
    requires
        tiles(text, tokens, error is None),
        text::byte_len(text) <= usize::MAX,
    ensures
        ({
            let v = split_of(text, tokens, error);
            let s = v.statements;
            &&& forall|i: int|
                0 <= i < s.len() && (i < s.len() - 1 || v.error is Some) ==> behind_semicolon(
                    text,
                    (#[trigger] s[i]).span.end as int,
                )
            &&& forall|i: int|
                0 <= i < s.len() ==> (#[trigger] s[i]).span.start == 0 || behind_semicolon(
                    text,
                    s[i].span.start as int,
                )
            &&& v.error matches Some(e) ==> e.span.start == 0 || behind_semicolon(
                text,
                e.span.start as int,
            )
        }),
{
    let cuts = choose|cuts: Seq<int>|
        #[trigger] cut_at(text, tokens, cuts) && (error is None ==> cuts.last() == text.len());
    let n = tokens.len() as int;
    let ended = statements_before(text, tokens, n);
    let s = split_of(text, tokens, error).statements;
    lemma_semicolons_before(text, tokens, cuts, n);
    lemma_segments_of_split(text, tokens, error, cuts);
    assert forall|i: int| 0 <= i < ended.len() implies #[trigger] s[i] == ended[i] by {
        if s.len() > ended.len() {
            assert(s.drop_last()[i] == s[i]);
        }
    }
}

/// How many more `(` than `)` there are among the tokens from `a` up to `b`.
pub open spec fn excess(tokens: Seq<SqlToken>, a: int, b: int) -> int
    decreases b - a,
{
    if a >= b {
        0
    } else {
        excess(tokens, a, b - 1) + (if tokens[b - 1].kind is LParen {
            1int
        } else if tokens[b - 1].kind is RParen {
            -1int
        } else {
            0int
        })
    }
}

/// Whether the parentheses from token `a` up to `b` are balanced: as many `(` as `)`, and nowhere a
/// `)` before its `(`.
pub open spec fn balanced(tokens: Seq<SqlToken>, a: int, b: int) -> bool {
    &&& excess(tokens, a, b) == 0
    &&& forall|k: int| a <= k <= b ==> #[trigger] excess(tokens, a, k) >= 0
}

/// Whether no parenthesis is open before token `n`: from nowhere up to it are there more `(` than `)`.
pub open spec fn outside_parentheses(tokens: Seq<SqlToken>, n: int) -> bool {
    forall|k: int| 0 <= k <= n ==> #[trigger] excess(tokens, k, n) <= 0
}

/// Whether token `j` ends a segment: a `;` with no parenthesis open before it.
pub open spec fn is_end(tokens: Seq<SqlToken>, j: int) -> bool {
    tokens[j].kind is SemiColon && outside_parentheses(tokens, j)
}

/// The nesting depth is the largest excess of `(` over `)` up to here: no place before has more open
/// parentheses behind it, and some place has as many.
pub proof fn law_depth_is_the_largest_excess(tokens: Seq<SqlToken>, n: int)
    requires
        0 <= n,
    ensures
        forall|k: int| 0 <= k <= n ==> #[trigger] excess(tokens, k, n) <= depth_after(tokens, n),
        exists|k: int| 0 <= k <= n && #[trigger] excess(tokens, k, n) == depth_after(tokens, n),
        depth_after(tokens, n) == 0 <==> outside_parentheses(tokens, n),
    decreases n,
{
    assert(excess(tokens, n, n) == 0);
    if n > 0 {
        law_depth_is_the_largest_excess(tokens, n - 1);
        let k = choose|k: int|
            0 <= k <= n - 1 && #[trigger] excess(tokens, k, n - 1) == depth_after(tokens, n - 1);
        assert forall|j: int| 0 <= j <= n implies #[trigger] excess(tokens, j, n) <= depth_after(
            tokens,
            n,
        ) by {
            if j < n {
                assert(excess(tokens, j, n - 1) <= depth_after(tokens, n - 1));
            }
        }
        if tokens[n - 1].kind is RParen && depth_after(tokens, n - 1) == 0 {
            assert(excess(tokens, n, n) == depth_after(tokens, n));
        } else {
            assert(excess(tokens, k, n) == depth_after(tokens, n));
        }
    }
    let k = choose|k: int| 0 <= k <= n && #[trigger] excess(tokens, k, n) == depth_after(tokens, n);
    assert(excess(tokens, n, n) <= depth_after(tokens, n));
}

/// Balanced parentheses leave nothing open: the depth behind them is the depth before them, however
/// deep they nest.
pub proof fn law_balanced_parentheses_leave_nothing_open(tokens: Seq<SqlToken>, a: int, b: int)
    requires
        0 <= a <= b,
        balanced(tokens, a, b),
    ensures
        depth_after(tokens, b) == depth_after(tokens, a),
{
    lemma_depth_follows_excess(tokens, a, b);
}

proof fn lemma_depth_follows_excess(tokens: Seq<SqlToken>, a: int, b: int)
    requires
        0 <= a <= b,
        forall|k: int| a <= k <= b ==> #[trigger] excess(tokens, a, k) >= 0,
    ensures
        depth_after(tokens, b) == depth_after(tokens, a) + excess(tokens, a, b),
    decreases b - a,
{
    if a < b {
        lemma_depth_follows_excess(tokens, a, b - 1);
        law_depth_is_the_largest_excess(tokens, a);
        assert(excess(tokens, a, a) <= depth_after(tokens, a));
        assert(excess(tokens, a, b - 1) >= 0);
        assert(excess(tokens, a, b) >= 0);
    }
}

proof fn lemma_ends(tokens: Seq<SqlToken>, j: int)
    requires
        0 <= j,
    ensures
        terminates(tokens, j) <==> is_end(tokens, j),
        balanced(tokens, 0, j) ==> outside_parentheses(tokens, j),
{
    law_depth_is_the_largest_excess(tokens, j);
    if balanced(tokens, 0, j) {
        law_balanced_parentheses_leave_nothing_open(tokens, 0, j);
    }
}

/// The segment that token `i` stands in ends at the next token that ends one.
proof fn lemma_next_end(tokens: Seq<SqlToken>, i: int, n: int) -> (m: int)
    requires
        0 <= i < n,
        !terminates(tokens, i),
    ensures
        i < m <= n,
        forall|j: int| i <= j < m ==> !#[trigger] terminates(tokens, j),
        m < n ==> terminates(tokens, m),
        segment_begin(tokens, m) <= i,
    decreases n - i,
{
    let m = if i + 1 < n && !terminates(tokens, i + 1) {
        lemma_next_end(tokens, i + 1, n)
    } else {
        i + 1
    };
    lemma_segment_begin(tokens, m);
    m
}

/// Each statement that a token has ended is that of the segment before the token.
proof fn lemma_statement_from(text: Seq<char>, tokens: Seq<SqlToken>, n: int, k: int) -> (m: int)
    requires
        0 <= n <= tokens.len(),
        0 <= k < statements_before(text, tokens, n).len(),
    ensures
        0 <= m < n,
        terminates(tokens, m),
        has_significant(tokens, segment_begin(tokens, m), m),
        statements_before(text, tokens, n)[k] == statement_of(
            text,
            tokens,
            m,
            offset_at(text, tokens[m].end),
        ),
    decreases n,
{
    let before = statements_before(text, tokens, n - 1);
    if k < before.len() {
        lemma_statement_from(text, tokens, n - 1, k)
    } else {
        n - 1
    }
}

/// Each token that ends a segment with something in it has ended a statement.
proof fn lemma_statement_for(text: Seq<char>, tokens: Seq<SqlToken>, n: int, m: int) -> (k: int)
    requires
        0 <= m < n <= tokens.len(),
        terminates(tokens, m),
        has_significant(tokens, segment_begin(tokens, m), m),
    ensures
        0 <= k < statements_before(text, tokens, n).len(),
        statements_before(text, tokens, n)[k] == statement_of(
            text,
            tokens,
            m,
            offset_at(text, tokens[m].end),
        ),
    decreases n,
{
    if m == n - 1 {
        statements_before(text, tokens, n).len() - 1
    } else {
        lemma_statement_for(text, tokens, n - 1, m)
    }
}

/// Whether the part of a statement that is run takes in a token.
pub open spec fn covers(text: Seq<char>, s: Statement, token: SqlToken) -> bool {
    s.sql_span.start <= offset_at(text, token.start) && offset_at(text, token.end)
        <= s.sql_span.end
}

/// What the statement of a segment takes in.
proof fn lemma_statement_covers(
    text: Seq<char>,
    tokens: Seq<SqlToken>,
    cuts: Seq<int>,
    m: int,
    end: int,
    i: int,
)
    requires
        cut_at(text, tokens, cuts),
        text::byte_len(text) <= usize::MAX,
        0 <= m <= tokens.len(),
        has_significant(tokens, segment_begin(tokens, m), m),
        0 <= i < tokens.len(),
    ensures
        ({
            let s = statement_of(text, tokens, m, end);
            let begin = segment_begin(tokens, m);
            let f = first_kept(tokens, begin, m);
            let l = last_kept(tokens, begin, m);
            &&& begin <= f <= l < m
            &&& s.sql_span.start == offset_at(text, tokens[f].start)
            &&& s.sql_span.end == offset_at(text, tokens[l].end)
            &&& begin <= i < m && !bare_whitespace(tokens[i].kind) ==> covers(text, s, tokens[i])
            &&& i < begin ==> offset_at(text, tokens[i].end) <= s.sql_span.start
            &&& i >= m ==> s.sql_span.end <= offset_at(text, tokens[i].start)
            &&& !bare_whitespace(tokens[f].kind) && !bare_whitespace(tokens[l].kind)
        }),
{
    let begin = segment_begin(tokens, m);
    lemma_segment_begin(tokens, m);
    lemma_kept_range(tokens, begin, m);
    let f = first_kept(tokens, begin, m);
    let l = last_kept(tokens, begin, m);
    lemma_cut_offsets(text, tokens, cuts, f);
    lemma_cut_offsets(text, tokens, cuts, l);
    lemma_kept_is_kept(tokens, begin, m);
    if begin <= i < m && !bare_whitespace(tokens[i].kind) {
        lemma_first_kept_at_most(tokens, begin, m, i);
        lemma_last_kept_at_least(tokens, begin, m, i);
        lemma_cut_order(text, tokens, cuts, f, i);
        lemma_cut_order(text, tokens, cuts, i, l);
    }
    if i < begin {
        lemma_cut_order(text, tokens, cuts, i, f);
    }
    if i >= m {
        lemma_cut_order(text, tokens, cuts, l, i);
    }
}

proof fn lemma_kept_is_kept(tokens: Seq<SqlToken>, a: int, b: int)
    requires
        a <= b,
    ensures
        first_kept(tokens, a, b) < b ==> !bare_whitespace(
            tokens[first_kept(tokens, a, b)].kind,
        ),
        last_kept(tokens, a, b) >= a ==> !bare_whitespace(tokens[last_kept(tokens, a, b)].kind),
    decreases b - a,
{
    if a < b {
        lemma_kept_is_kept(tokens, a + 1, b);
        lemma_kept_is_kept(tokens, a, b - 1);
    }
}

/// Whether token `i` stands behind the last token that ends a segment.
pub open spec fn in_last_segment(tokens: Seq<SqlToken>, i: int) -> bool {
    forall|j: int| i <= j < tokens.len() ==> !#[trigger] is_end(tokens, j)
}

/// Whether a statement is a segment of the text: it runs from the beginning of the text, or from behind
/// a token that ends a segment, to behind the next such token, or to the end of the text; what is run
/// of it begins and ends with a token that is not bare whitespace, holds something significant, and
/// holds no token that ends a segment.
pub open spec fn is_segment(text: Seq<char>, tokens: Seq<SqlToken>, s: Statement) -> bool {
    &&& s.span.start == 0 || exists|j: int|
        0 <= j < tokens.len() && #[trigger] is_end(tokens, j) && s.span.start == offset_at(
            text,
            tokens[j].end,
        )
    &&& s.span.end == text::byte_len(text) || exists|j: int|
        0 <= j < tokens.len() && #[trigger] is_end(tokens, j) && s.span.end == offset_at(
            text,
            tokens[j].end,
        )
    &&& forall|j: int|
        0 <= j < tokens.len() && #[trigger] is_end(tokens, j) ==> offset_at(text, tokens[j].end)
            <= s.span.start || s.span.end <= offset_at(text, tokens[j].end)
    &&& forall|j: int|
        0 <= j < tokens.len() && #[trigger] is_end(tokens, j) ==> offset_at(text, tokens[j].end)
            <= s.sql_span.start || s.sql_span.end <= offset_at(text, tokens[j].start)
    &&& exists|f: int|
        0 <= f < tokens.len() && !bare_whitespace((#[trigger] tokens[f]).kind) && s.sql_span.start
            == offset_at(text, tokens[f].start)
    &&& exists|l: int|
        0 <= l < tokens.len() && !bare_whitespace((#[trigger] tokens[l]).kind) && s.sql_span.end
            == offset_at(text, tokens[l].end)
    &&& exists|i: int|
        0 <= i < tokens.len() && significant((#[trigger] tokens[i]).kind) && covers(
            text,
            s,
            tokens[i],
        )
}

proof fn lemma_is_segment(
    text: Seq<char>,
    tokens: Seq<SqlToken>,
    cuts: Seq<int>,
    m: int,
    end: int,
)
    requires
        cut_at(text, tokens, cuts),
        text::byte_len(text) <= usize::MAX,
        0 <= m <= tokens.len(),
        has_significant(tokens, segment_begin(tokens, m), m),
        m < tokens.len() ==> terminates(tokens, m) && end == offset_at(text, tokens[m].end),
        m == tokens.len() ==> end == text::byte_len(text) && cuts.last() == text.len(),
    ensures
        is_segment(text, tokens, statement_of(text, tokens, m, end)),
{
    let s = statement_of(text, tokens, m, end);
    let begin = segment_begin(tokens, m);
    lemma_segment_begin(tokens, m);
    lemma_segment_offset(text, tokens, cuts, m);
    let w = choose|i: int| begin <= i < m && significant((#[trigger] tokens[i]).kind);
    lemma_statement_covers(text, tokens, cuts, m, end, w);
    let f = first_kept(tokens, begin, m);
    let l = last_kept(tokens, begin, m);
    if m < tokens.len() {
        lemma_cut_offsets(text, tokens, cuts, m);
        lemma_ends(tokens, m);
        assert(is_end(tokens, m));
    }
    if begin > 0 {
        lemma_ends(tokens, begin - 1);
        lemma_cut_offsets(text, tokens, cuts, begin - 1);
        assert(is_end(tokens, begin - 1));
    }
    assert forall|j: int| 0 <= j < tokens.len() && #[trigger] is_end(tokens, j) implies (offset_at(
        text,
        tokens[j].end,
    ) <= s.span.start || s.span.end <= offset_at(text, tokens[j].end)) && (offset_at(
        text,
        tokens[j].end,
    ) <= s.sql_span.start || s.sql_span.end <= offset_at(text, tokens[j].start)) by {
        lemma_ends(tokens, j);
        lemma_statement_covers(text, tokens, cuts, m, end, j);
        lemma_cut_offsets(text, tokens, cuts, j);
        if j < begin {
            lemma_cut_order(text, tokens, cuts, j, begin - 1);
        } else {
            assert(j >= m);
            lemma_cut_order(text, tokens, cuts, m, j);
        }
    }
    assert(!bare_whitespace(tokens[f].kind) && !bare_whitespace(tokens[l].kind));
    assert(covers(text, s, tokens[w]));
}

/// Whether the statement at `k` takes in both tokens.
pub open spec fn covers_both(
    text: Seq<char>,
    s: Seq<Statement>,
    k: int,
    a: SqlToken,
    b: SqlToken,
) -> bool {
    0 <= k < s.len() && covers(text, s[k], a) && covers(text, s[k], b)
}

/// Whether no token from `i` to `x`, whichever comes first, ends a segment.
pub open spec fn in_one_segment(tokens: Seq<SqlToken>, i: int, x: int) -> bool {
    forall|j: int| (i <= j <= x || x <= j <= i) ==> !#[trigger] is_end(tokens, j)
}

/// The statements that tokens have ended are the first ones of a split; one more may follow.
proof fn lemma_split_statements(text: Seq<char>, tokens: Seq<SqlToken>, error: Option<Seq<char>>)
    ensures
        ({
            let n = tokens.len() as int;
            let ended = statements_before(text, tokens, n);
            let v = split_of(text, tokens, error);
            let more = v.error is None && has_significant(tokens, segment_begin(tokens, n), n);
            &&& v.statements.len() == ended.len() + (if more {
                1int
            } else {
                0int
            })
            &&& forall|k: int| 0 <= k < ended.len() ==> #[trigger] v.statements[k] == ended[k]
            &&& more ==> v.statements[ended.len() as int] == statement_of(
                text,
                tokens,
                n,
                offset_at(text, tokens[n - 1].end),
            )
        }),
{
}

/// Where a statement of a split comes from: the token that ended its segment, or the end of the tokens.
proof fn lemma_nth_statement(
    text: Seq<char>,
    tokens: Seq<SqlToken>,
    error: Option<Seq<char>>,
    cuts: Seq<int>,
    k: int,
) -> (r: (int, int))
    requires
        cut_at(text, tokens, cuts),
        error is None ==> cuts.last() == text.len(),
        0 <= k < split_of(text, tokens, error).statements.len(),
    ensures
        ({
            let (m, end) = r;
            &&& 0 <= m <= tokens.len()
            &&& has_significant(tokens, segment_begin(tokens, m), m)
            &&& m < tokens.len() ==> terminates(tokens, m) && end == offset_at(text, tokens[m].end)
            &&& m == tokens.len() ==> end == text::byte_len(text) && cuts.last() == text.len()
            &&& split_of(text, tokens, error).statements[k] == statement_of(text, tokens, m, end)
        }),
{
    let n = tokens.len() as int;
    let ended = statements_before(text, tokens, n);
    lemma_split_statements(text, tokens, error);
    if k < ended.len() {
        let m = lemma_statement_from(text, tokens, n, k);
        (m, offset_at(text, tokens[m].end))
    } else {
        lemma_segment_begin(tokens, n);
        assert(n > 0);
        lemma_cut_offsets(text, tokens, cuts, n - 1);
        assert(text.take(text.len() as int) =~= text);
        (n, offset_at(text, tokens[n - 1].end))
    }
}

proof fn lemma_each_is_segment(
    text: Seq<char>,
    tokens: Seq<SqlToken>,
    error: Option<Seq<char>>,
    cuts: Seq<int>,
    k: int,
)
    requires
        cut_at(text, tokens, cuts),
        error is None ==> cuts.last() == text.len(),
        text::byte_len(text) <= usize::MAX,
        0 <= k < split_of(text, tokens, error).statements.len(),
    ensures
        is_segment(text, tokens, split_of(text, tokens, error).statements[k]),
{
    let (m, end) = lemma_nth_statement(text, tokens, error, cuts, k);
    lemma_is_segment(text, tokens, cuts, m, end);
}

#[verifier::rlimit(40)]
proof fn lemma_both_covered(
    text: Seq<char>,
    tokens: Seq<SqlToken>,
    error: Option<Seq<char>>,
    cuts: Seq<int>,
    i: int,
    x: int,
) -> (k: int)
    requires
        cut_at(text, tokens, cuts),
        text::byte_len(text) <= usize::MAX,
        0 <= i < tokens.len(),
        0 <= x < tokens.len(),
        significant(tokens[i].kind),
        !bare_whitespace(tokens[x].kind),
        in_one_segment(tokens, i, x),
        !(split_of(text, tokens, error).error is Some && in_last_segment(tokens, i)),
    ensures
        covers_both(text, split_of(text, tokens, error).statements, k, tokens[i], tokens[x]),
{
    let n = tokens.len() as int;
    let ended = statements_before(text, tokens, n);
    assert(!is_end(tokens, i));
    lemma_ends(tokens, i);
    let m = lemma_next_end(tokens, i, n);
    lemma_segment_begin(tokens, m);
    assert(segment_begin(tokens, m) <= x < m) by {
        if x < segment_begin(tokens, m) {
            let j = segment_begin(tokens, m) - 1;
            lemma_ends(tokens, j);
            assert(is_end(tokens, j));
        }
        if x >= m {
            lemma_ends(tokens, m);
            assert(is_end(tokens, m));
        }
    }
    assert(has_significant(tokens, segment_begin(tokens, m), m));
    lemma_split_statements(text, tokens, error);
    if m < n {
        let k = lemma_statement_for(text, tokens, n, m);
        let end = offset_at(text, tokens[m].end);
        lemma_statement_covers(text, tokens, cuts, m, end, i);
        lemma_statement_covers(text, tokens, cuts, m, end, x);
        k
    } else {
        assert(in_last_segment(tokens, i)) by {
            assert forall|j: int| i <= j < n implies !#[trigger] is_end(tokens, j) by {
                lemma_ends(tokens, j);
                assert(!terminates(tokens, j));
            }
        }
        let end = offset_at(text, tokens[n - 1].end);
        lemma_statement_covers(text, tokens, cuts, n, end, i);
        lemma_statement_covers(text, tokens, cuts, n, end, x);
        ended.len() as int
    }
}

/// Each statement of a text is one of its segments.
pub proof fn law_statements_are_segments(
    text: Seq<char>,
    tokens: Seq<SqlToken>,
    error: Option<Seq<char>>,
    k: int,
)
    requires
        tiles(text, tokens, error is None),
        text::byte_len(text) <= usize::MAX,
        0 <= k < split_of(text, tokens, error).statements.len(),
    ensures
        is_segment(text, tokens, split_of(text, tokens, error).statements[k]),
{
    let cuts = choose|cuts: Seq<int>|
        #[trigger] cut_at(text, tokens, cuts) && (error is None ==> cuts.last() == text.len());
    lemma_each_is_segment(text, tokens, error, cuts, k);
}

/// Nothing is lost: a token that is neither whitespace nor a comment, and ends no segment, is run with
/// some statement, together with every other token of its segment that is not bare whitespace, comments
/// among them. Only what stands in a last segment that could not be split is left out.
pub proof fn law_every_token_is_run(
    text: Seq<char>,
    tokens: Seq<SqlToken>,
    error: Option<Seq<char>>,
    i: int,
    x: int,
)
    requires
        tiles(text, tokens, error is None),
        text::byte_len(text) <= usize::MAX,
        0 <= i < tokens.len(),
        0 <= x < tokens.len(),
        significant(tokens[i].kind),
        !bare_whitespace(tokens[x].kind),
        in_one_segment(tokens, i, x),
        !(split_of(text, tokens, error).error is Some && in_last_segment(tokens, i)),
    ensures
        exists|k: int| #[trigger]
            covers_both(text, split_of(text, tokens, error).statements, k, tokens[i], tokens[x]),
{
    let cuts = choose|cuts: Seq<int>|
        #[trigger] cut_at(text, tokens, cuts) && (error is None ==> cuts.last() == text.len());
    let k = lemma_both_covered(text, tokens, error, cuts, i, x);
}

/// A text that the tokenizer reads to its end has a part that cannot be split exactly where more `(`
/// than `)` stand from some place to its end; so one whose parentheses are balanced, however deep,
/// has none. One that the tokenizer does not read to its end always has one.
pub proof fn law_balanced_text_has_no_error(
    text: Seq<char>,
    tokens: Seq<SqlToken>,
    error: Option<Seq<char>>,
)
    ensures
        split_of(text, tokens, error).error is None <==> error is None && outside_parentheses(
            tokens,
            tokens.len() as int,
        ),
        error is None && balanced(tokens, 0, tokens.len() as int) ==> split_of(
            text,
            tokens,
            error,
        ).error is None,
        split_of(text, tokens, error).error matches Some(e) ==> match error {
            Some(message) => e.kind == SplitErrorKind::Tokenize && e.message == message,
            None => e.kind == SplitErrorKind::UnclosedParen && e.message
                == "unclosed `(`: the trailing statement is incomplete"@,
        },
{
    let n = tokens.len() as int;
    law_depth_is_the_largest_excess(tokens, n);
    lemma_ends(tokens, n);
}

/// What is left of a text that could not be split to its end runs from behind the last `;` that ended
/// something, or from the beginning, to the end of the text.
pub proof fn law_unsplit_part_is_the_last_segment(
    text: Seq<char>,
    tokens: Seq<SqlToken>,
    error: Option<Seq<char>>,
)
    requires
        tiles(text, tokens, error is None),
        text::byte_len(text) <= usize::MAX,
    ensures
        split_of(text, tokens, error).error matches Some(e) ==> {
            &&& e.span.end == text::byte_len(text)
            &&& forall|j: int|
                0 <= j < tokens.len() && #[trigger] is_end(tokens, j) ==> offset_at(
                    text,
                    tokens[j].end,
                ) <= e.span.start
            &&& e.span.start == 0 || exists|j: int|
                0 <= j < tokens.len() && #[trigger] is_end(tokens, j) && e.span.start == offset_at(
                    text,
                    tokens[j].end,
                )
        },
{
    let cuts = choose|cuts: Seq<int>|
        #[trigger] cut_at(text, tokens, cuts) && (error is None ==> cuts.last() == text.len());
    let n = tokens.len() as int;
    let begin = segment_begin(tokens, n);
    lemma_segment_begin(tokens, n);
    lemma_segment_offset(text, tokens, cuts, n);
    if begin > 0 {
        lemma_ends(tokens, begin - 1);
        lemma_cut_offsets(text, tokens, cuts, begin - 1);
        assert(is_end(tokens, begin - 1));
    }
    assert forall|j: int| 0 <= j < n && #[trigger] is_end(tokens, j) implies j < begin && offset_at(
        text,
        tokens[j].end,
    ) <= segment_offset(text, tokens, n) by {
        lemma_ends(tokens, j);
        assert(terminates(tokens, j));
        assert(j < begin);
        lemma_cut_offsets(text, tokens, cuts, j);
        lemma_cut_order(text, tokens, cuts, j, begin - 1);
    }
}

/// Spaces, line breaks and tabs are bare whitespace, and these alone; what is neither these nor a
/// comment is significant.
pub proof fn law_whitespace_and_comments_are_not_significant(kind: TokenKind)
    ensures
        bare_whitespace(kind) <==> (kind == TokenKind::Space || kind == TokenKind::Newline || kind
            == TokenKind::Tab),
        significant(kind) <==> (kind == TokenKind::LParen || kind == TokenKind::RParen || kind
            == TokenKind::SemiColon || kind == TokenKind::Other),
{
}

/// Every location names a place of the text: a line or column of 0 is the first, and what lies past
/// the last line, or past the end of a line, is the last line, or the end of the line. A line ends
/// where a line break stands, or the text.
pub proof fn law_locations_stay_in_the_text(text: Seq<char>, loc: Location)
    ensures
        ({
            let lines = text::lines_of(text);
            let at = index_at(text, loc);
            &&& 0 <= at <= text.len()
            &&& loc.line == 0 ==> at == index_at(text, Location { line: 1, column: loc.column })
            &&& loc.column == 0 ==> at == index_at(text, Location { line: loc.line, column: 1 })
            &&& forall|line: u64|
                lines.len() <= line && lines.len() <= loc.line ==> at == #[trigger] index_at(
                    text,
                    Location { line, column: loc.column },
                )
            &&& 1 <= loc.line <= lines.len() && loc.column > lines[loc.line - 1].len() ==> at
                == text.len() || text[at] == '\n'
            &&& 1 <= loc.line <= lines.len() && 1 <= loc.column <= lines[loc.line - 1].len() ==> at
                < text.len() && text[at] == lines[loc.line - 1][loc.column - 1]
        }),
{
    lemma_index_at_in_text(text, loc);
    let lines = text::lines_of(text);
    text::lemma_lines_of(text);
    if 1 <= loc.line <= lines.len() {
        let line = loc.line - 1;
        lemma_line_characters(lines, line);
    }
}

/// A line stands in the joined text behind the lines before it, up to a line break or the end.
pub proof fn lemma_line_characters(lines: Seq<Seq<char>>, line: int)
    requires
        0 <= line < lines.len(),
    ensures
        ({
            let all = text::joined(lines);
            let from = text::terminated(lines.take(line)).len();
            &&& from + lines[line].len() <= all.len()
            &&& forall|c: int| 0 <= c < lines[line].len() ==> #[trigger] all[from + c] == lines[line][c]
            &&& from + lines[line].len() < all.len() ==> all[(from + lines[line].len()) as int] == '\n'
        }),
{
    text::lemma_joined_at(lines, line);
    let rest = lines.skip(line + 1);
    if rest.len() > 0 {
        assert(rest =~= seq![rest[0]] + rest.skip(1));
        text::lemma_preceded_concat(seq![rest[0]], rest.skip(1));
        text::lemma_terminated_one(rest[0]);
    }
}

/// A `;` with balanced parentheses before it ends the statement before it: no statement reaches past
/// it, and where something significant stands between it and the `;` that ended the one before, a
/// statement ends there.
pub proof fn law_balanced_semicolon_ends_a_statement(
    text: Seq<char>,
    tokens: Seq<SqlToken>,
    error: Option<Seq<char>>,
    i: int,
    j: int,
)
    requires
        tiles(text, tokens, error is None),
        text::byte_len(text) <= usize::MAX,
        0 <= i < j < tokens.len(),
        tokens[j].kind is SemiColon,
        balanced(tokens, 0, j),
        significant(tokens[i].kind),
        forall|x: int| i <= x < j ==> !#[trigger] is_end(tokens, x),
    ensures
        ({
            let s = split_of(text, tokens, error).statements;
            let end = offset_at(text, tokens[j].end);
            &&& exists|k: int|
                0 <= k < s.len() && (#[trigger] s[k]).span.end == end && covers(
                    text,
                    s[k],
                    tokens[i],
                )
            &&& forall|k: int|
                0 <= k < s.len() ==> end <= (#[trigger] s[k]).span.start || s[k].span.end <= end
        }),
{
    let cuts = choose|cuts: Seq<int>|
        #[trigger] cut_at(text, tokens, cuts) && (error is None ==> cuts.last() == text.len());
    let n = tokens.len() as int;
    let s = split_of(text, tokens, error).statements;
    lemma_split_statements(text, tokens, error);
    lemma_ends(tokens, j);
    assert(is_end(tokens, j));
    lemma_ends(tokens, i);
    assert(!is_end(tokens, i));
    let m = lemma_next_end(tokens, i, n);
    assert(m == j) by {
        if m < j {
            lemma_ends(tokens, m);
            assert(is_end(tokens, m));
        } else if m > j {
            assert(terminates(tokens, j));
        }
    }
    assert(has_significant(tokens, segment_begin(tokens, m), m));
    let k = lemma_statement_for(text, tokens, n, m);
    lemma_cut_offsets(text, tokens, cuts, m);
    lemma_statement_covers(text, tokens, cuts, m, offset_at(text, tokens[m].end), i);
    assert(s[k].span.end == offset_at(text, tokens[j].end));
    assert forall|q: int| 0 <= q < s.len() implies offset_at(text, tokens[j].end) <= (
    #[trigger] s[q]).span.start || s[q].span.end <= offset_at(text, tokens[j].end) by {
        lemma_each_is_segment(text, tokens, error, cuts, q);
    }
}

/// Splits a text into its statements.
pub fn split(text: &str) -> (r: Split)
    ensures
        r@ == split_of(text@, token_stream(text@).0, token_stream(text@).1),
        tiles(text@, token_stream(text@).0, token_stream(text@).1 is None),
        well_placed(text@, r@),
{
    let whole: usize = text::byte_count(text);
    let (tokens, error) = tokenize(text);
    proof {
        law_split_well_placed(text@, token_stream(text@).0, token_stream(text@).1);
    }
    split_tokens(text, &tokens, error)
}

/// The statement at `offset`: the one that ends there; else the one whose segment holds the
/// offset; else the last one that ends before it. Of several that end there, or hold it, the
/// first.
pub open spec fn is_statement_at(s: Seq<Statement>, offset: int, i: int) -> bool {
    &&& 0 <= i < s.len()
    &&& if exists|j: int| 0 <= j < s.len() && (#[trigger] s[j]).span.end == offset {
        &&& s[i].span.end == offset
        &&& forall|j: int| 0 <= j < i ==> (#[trigger] s[j]).span.end != offset
    } else if exists|j: int| 0 <= j < s.len() && holds((#[trigger] s[j]).span, offset) {
        &&& holds(s[i].span, offset)
        &&& forall|j: int| 0 <= j < i ==> !holds((#[trigger] s[j]).span, offset)
    } else {
        &&& s[i].span.end <= offset
        &&& forall|j: int| i < j < s.len() ==> !((#[trigger] s[j]).span.end <= offset)
    }
}

/// Where a statement ends at the offset, one that ends there is the statement at it.
pub proof fn lemma_statement_at_exists(s: Seq<Statement>, offset: int, j: int)
    requires
        0 <= j < s.len(),
        s[j].span.end == offset,
    ensures
        exists|i: int| #[trigger] is_statement_at(s, offset, i),
        forall|i: int| #[trigger] is_statement_at(s, offset, i) ==> s[i].span.end == offset,
    decreases j,
{
    if forall|k: int| 0 <= k < j ==> (#[trigger] s[k]).span.end != offset {
        assert(is_statement_at(s, offset, j));
    } else {
        let k = choose|k: int| 0 <= k < j && (#[trigger] s[k]).span.end == offset;
        lemma_statement_at_exists(s, offset, k);
    }
}

/// Whether the offset lies in the span.
pub open spec fn holds(span: ByteSpan, offset: int) -> bool {
    span.start <= offset < span.end
}

/// Whether a statement's runnable part shares a byte with the range from `from` to `to`.
pub open spec fn overlaps(s: Statement, from: int, to: int) -> bool {
    s.sql_span.start < to && from < s.sql_span.end
}

/// The statements from the first to the last one whose runnable part overlaps the range between
/// the two offsets, whichever comes first; none for an empty range.
pub open spec fn is_statements_in(s: Seq<Statement>, a: int, b: int, part: Seq<Statement>) -> bool {
    let from = if a <= b { a } else { b };
    let to = if a <= b { b } else { a };
    if from == to || forall|j: int| 0 <= j < s.len() ==> !overlaps(#[trigger] s[j], from, to) {
        part.len() == 0
    } else {
        exists|first: int, last: int|
            {
                &&& 0 <= first <= last < s.len()
                &&& overlaps(#[trigger] s[first], from, to)
                &&& overlaps(#[trigger] s[last], from, to)
                &&& forall|j: int| 0 <= j < first ==> !overlaps(#[trigger] s[j], from, to)
                &&& forall|j: int| last < j < s.len() ==> !overlaps(#[trigger] s[j], from, to)
                &&& part == s.subrange(first, last + 1)
            }
    }
}

impl Split {
    /// The statements, in the order of the text.
    pub fn statements(&self) -> (s: &[Statement])
        ensures
            s@ == self@.statements,
    {
        self.statements.as_slice()
    }

    /// The end of the text that is not a statement, if it has one.
    pub fn error(&self) -> (e: Option<&SplitError>)
        ensures
            e is Some <==> self@.error is Some,
            e is Some ==> e->0@ == self@.error->0,
    {
        match &self.error {
            Some(e) => Some(e),
            None => None,
        }
    }

    /// The statement that a cursor at `offset` stands on.
    pub fn statement_at(&self, offset: usize) -> (r: Option<&Statement>)
        ensures
            match r {
                Some(s) => exists|i: int| #[trigger] is_statement_at(
                    self@.statements,
                    offset as int,
                    i,
                ) && *s == self@.statements[i],
                None => forall|i: int| !is_statement_at(self@.statements, offset as int, i),
            },
    {
        let n: usize = self.statements.len();
        let mut i: usize = 0;
        while i < n
            invariant
                n == self.statements@.len(),
                i <= n,
                forall|j: int| 0 <= j < i ==> (#[trigger] self.statements@[j]).span.end != offset,
            decreases n - i,
        {
            if self.statements[i].span.end == offset {
                assert(is_statement_at(self@.statements, offset as int, i as int));
                return Some(&self.statements[i]);
            }
            i = i + 1;
        }
        let mut i: usize = 0;
        while i < n
            invariant
                n == self.statements@.len(),
                i <= n,
                forall|j: int| 0 <= j < n ==> (#[trigger] self.statements@[j]).span.end != offset,
                forall|j: int|
                    0 <= j < i ==> !holds((#[trigger] self.statements@[j]).span, offset as int),
            decreases n - i,
        {
            if self.statements[i].span.contains(offset) {
                assert(is_statement_at(self@.statements, offset as int, i as int));
                return Some(&self.statements[i]);
            }
            i = i + 1;
        }
        let mut i: usize = n;
        while i > 0
            invariant
                n == self.statements@.len(),
                i <= n,
                forall|j: int| 0 <= j < n ==> (#[trigger] self.statements@[j]).span.end != offset,
                forall|j: int|
                    0 <= j < n ==> !holds((#[trigger] self.statements@[j]).span, offset as int),
                forall|j: int|
                    i <= j < n ==> !((#[trigger] self.statements@[j]).span.end <= offset),
            decreases i,
        {
            if self.statements[i - 1].span.end <= offset {
                assert(is_statement_at(self@.statements, offset as int, i - 1));
                return Some(&self.statements[i - 1]);
            }
            i = i - 1;
        }
        None
    }

    /// The statements that a selection from `start` to `end` touches.
    pub fn statements_in(&self, start: usize, end: usize) -> (part: &[Statement])
        ensures
            is_statements_in(self@.statements, start as int, end as int, part@),
    {
        let (from, to): (usize, usize) = if start <= end {
            (start, end)
        } else {
            (end, start)
        };
        let n: usize = self.statements.len();
        if from == to {
            return vstd::slice::slice_subrange(self.statements.as_slice(), 0, 0);
        }
        let mut first: usize = 0;
        while first < n && !(self.statements[first].sql_span.start < to && from
            < self.statements[first].sql_span.end)
            invariant
                n == self.statements@.len(),
                first <= n,
                forall|j: int|
                    0 <= j < first ==> !overlaps(
                        #[trigger] self.statements@[j],
                        from as int,
                        to as int,
                    ),
            decreases n - first,
        {
            first = first + 1;
        }
        if first == n {
            return vstd::slice::slice_subrange(self.statements.as_slice(), 0, 0);
        }
        let mut last: usize = n - 1;
        while !(self.statements[last].sql_span.start < to && from
            < self.statements[last].sql_span.end)
            invariant
                n == self.statements@.len(),
                first <= last < n,
                overlaps(self.statements@[first as int], from as int, to as int),
                forall|j: int|
                    last < j < n ==> !overlaps(
                        #[trigger] self.statements@[j],
                        from as int,
                        to as int,
                    ),
            decreases last,
        {
            last = last - 1;
        }
        proof {
            assert(overlaps(self.statements@[last as int], from as int, to as int));
            assert(overlaps(self.statements@[first as int], from as int, to as int));
        }
        vstd::slice::slice_subrange(self.statements.as_slice(), first, last + 1)
    }
}

} // verus!
