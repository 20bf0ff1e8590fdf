//! Text as a sequence of characters, and its length in UTF-8 bytes.
use vstd::prelude::*;
use vstd::utf8::*;

verus! {

/// How many bytes `c` takes in UTF-8.
pub open spec fn char_width(c: char) -> nat {
    encode_scalar(c as u32).len()
}

/// How many bytes `s` takes in UTF-8.
pub open spec fn byte_len(s: Seq<char>) -> nat {
    encode_utf8(s).len()
}

/// The byte offset of the character with index `k`.
pub open spec fn byte_offset(s: Seq<char>, k: int) -> nat {
    byte_len(s.take(k))
}

/// Whether `offset` is a boundary between two characters of `s`, or one of its ends.
pub open spec fn is_boundary(s: Seq<char>, offset: int) -> bool {
    exists|k: int| 0 <= k <= s.len() && offset == #[trigger] byte_offset(s, k)
}

/// The characters of `s` that lie in the byte range from `start` to `end`.
pub open spec fn byte_slice(s: Seq<char>, start: int, end: int) -> Seq<char> {
    decode_utf8(encode_utf8(s).subrange(start, end))
}

pub proof fn lemma_encode_concat(a: Seq<char>, b: Seq<char>)
    ensures
        encode_utf8(a + b) == encode_utf8(a) + encode_utf8(b),
    decreases a.len(),
{
    if a.len() == 0 {
        assert(a + b =~= b);
        assert(encode_utf8(a) + encode_utf8(b) =~= encode_utf8(b));
    } else {
        assert((a + b).drop_first() =~= a.drop_first() + b);
        lemma_encode_concat(a.drop_first(), b);
        assert(encode_utf8(a + b) =~= encode_utf8(a) + encode_utf8(b));
    }
}

pub proof fn lemma_encode_injective(a: Seq<char>, b: Seq<char>)
    requires
        encode_utf8(a) == encode_utf8(b),
    ensures
        a == b,
{
    encode_utf8_decode_utf8(a);
    encode_utf8_decode_utf8(b);
}

pub proof fn lemma_byte_len_concat(a: Seq<char>, b: Seq<char>)
    ensures
        byte_len(a + b) == byte_len(a) + byte_len(b),
{
    lemma_encode_concat(a, b);
}

pub proof fn lemma_byte_len_one(c: char)
    ensures
        byte_len(seq![c]) == char_width(c),
        1 <= char_width(c) <= 4,
{
    let s = seq![c];
    assert(s.drop_first() =~= Seq::<char>::empty());
    assert(encode_utf8(s.drop_first()).len() == 0);
}

pub proof fn lemma_byte_len_bounds(s: Seq<char>)
    ensures
        s.len() <= byte_len(s) <= 4 * s.len(),
        byte_len(s) == 0 <==> s.len() == 0,
    decreases s.len(),
{
    if s.len() > 0 {
        lemma_byte_len_one(s[0]);
        lemma_byte_len_bounds(s.drop_first());
    }
}

/// One character further is `char_width` bytes further.
pub proof fn lemma_byte_offset_step(s: Seq<char>, k: int)
    requires
        0 <= k < s.len(),
    ensures
        byte_offset(s, k + 1) == byte_offset(s, k) + char_width(s[k]),
        byte_offset(s, k) < byte_offset(s, k + 1),
{
    assert(s.take(k + 1) =~= s.take(k) + seq![s[k]]);
    lemma_byte_len_concat(s.take(k), seq![s[k]]);
    lemma_byte_len_one(s[k]);
}

/// Byte offsets grow with the character index.
pub proof fn lemma_byte_offset_monotone(s: Seq<char>, i: int, j: int)
    requires
        0 <= i <= j <= s.len(),
    ensures
        byte_offset(s, i) <= byte_offset(s, j),
        i < j ==> byte_offset(s, i) < byte_offset(s, j),
        byte_offset(s, j) <= byte_len(s),
{
    lemma_byte_offset_split(s, i, j);
    lemma_byte_len_bounds(s.subrange(i, j));
    lemma_byte_offset_split(s, j, s.len() as int);
    assert(s.take(s.len() as int) =~= s);
}

/// The bytes between two character indices.
pub proof fn lemma_byte_offset_split(s: Seq<char>, i: int, j: int)
    requires
        0 <= i <= j <= s.len(),
    ensures
        byte_offset(s, j) == byte_offset(s, i) + byte_len(s.subrange(i, j)),
{
    assert(s.take(j) =~= s.take(i) + s.subrange(i, j));
    lemma_byte_len_concat(s.take(i), s.subrange(i, j));
}

/// Slicing at the byte offsets of two indices gives the characters between them.
pub proof fn lemma_byte_slice(s: Seq<char>, i: int, j: int)
    requires
        0 <= i <= j <= s.len(),
    ensures
        byte_slice(s, byte_offset(s, i) as int, byte_offset(s, j) as int) == s.subrange(i, j),
{
    let a = s.take(i);
    let b = s.subrange(i, j);
    let c = s.skip(j);
    assert(s =~= a + b + c);
    lemma_encode_concat(a + b, c);
    lemma_encode_concat(a, b);
    assert(s.take(j) =~= a + b);
    assert(encode_utf8(s).subrange(byte_offset(s, i) as int, byte_offset(s, j) as int)
        =~= encode_utf8(b));
    encode_utf8_decode_utf8(b);
}

/// The byte offset of a character index is a character boundary of the encoded text.
pub proof fn lemma_char_boundary(s: Seq<char>, k: int)
    requires
        0 <= k <= s.len(),
    ensures
        is_char_boundary(encode_utf8(s), byte_offset(s, k) as int),
    decreases k,
{
    let bytes = encode_utf8(s);
    encode_utf8_valid_utf8(s);
    if k == 0 {
        assert(s.take(0) =~= Seq::<char>::empty());
    } else {
        let rest = s.drop_first();
        lemma_char_boundary(rest, k - 1);
        encode_utf8_first_scalar(s);
        assert(pop_first_scalar(bytes) =~= encode_utf8(rest));
        assert(s.take(k) =~= seq![s[0]] + rest.take(k - 1));
        lemma_byte_len_concat(seq![s[0]], rest.take(k - 1));
        lemma_byte_len_one(s[0]);
        lemma_byte_offset_monotone(s, 0, k);
    }
}

/// Every character boundary of the encoded text is the byte offset of a character index.
pub proof fn lemma_boundary_index(s: Seq<char>, offset: int) -> (k: int)
    requires
        is_char_boundary(encode_utf8(s), offset),
    ensures
        0 <= k <= s.len(),
        byte_offset(s, k) == offset,
    decreases s.len(),
{
    let bytes = encode_utf8(s);
    encode_utf8_valid_utf8(s);
    if offset == 0 {
        assert(s.take(0) =~= Seq::<char>::empty());
        0
    } else {
        assert(s.len() > 0);
        let rest = s.drop_first();
        encode_utf8_first_scalar(s);
        assert(pop_first_scalar(bytes) =~= encode_utf8(rest));
        let k = lemma_boundary_index(rest, offset - length_of_first_scalar(bytes));
        assert(s.take(k + 1) =~= seq![s[0]] + rest.take(k));
        lemma_byte_len_concat(seq![s[0]], rest.take(k));
        lemma_byte_len_one(s[0]);
        k + 1
    }
}

/// `String::push` appends one character.
pub assume_specification[ String::push ](s: &mut String, ch: char)
    ensures
        final(s)@ == old(s)@.push(ch),
;

/// The number of bytes of a character.
pub fn width_of(c: char) -> (n: usize)
    ensures
        n == char_width(c),
{
    let v: u32 = c as u32;
    if v <= 0x7f {
        1
    } else if v <= 0x7ff {
        2
    } else if v <= 0xffff {
        3
    } else {
        4
    }
}

/// The number of bytes of a text.
pub fn byte_count(s: &str) -> (n: usize)
    ensures
        n == byte_len(s@),
{
    s.as_bytes().len()
}

/// The part of `s` that starts at the character with index `k`, found by its byte offset.
pub(crate) fn suffix_at(s: &str, offset: usize, Ghost(k): Ghost<int>) -> (r: &str)
    requires
        0 <= k <= s@.len(),
        offset == byte_offset(s@, k),
    ensures
        r@ == s@.skip(k),
{
    proof {
        lemma_char_boundary(s@, k);
    }
    let parts = s.split_at(offset);
    proof {
        assert(s@ =~= s@.take(k) + s@.skip(k));
        lemma_encode_concat(s@.take(k), s@.skip(k));
        assert(encode_utf8(parts.1@) =~= encode_utf8(s@.skip(k)));
        lemma_encode_injective(parts.1@, s@.skip(k));
    }
    parts.1
}

/// The first `k` characters of `s`, found by their length in bytes.
pub(crate) fn prefix_at(s: &str, offset: usize, Ghost(k): Ghost<int>) -> (r: &str)
    requires
        0 <= k <= s@.len(),
        offset == byte_offset(s@, k),
    ensures
        r@ == s@.take(k),
{
    proof {
        lemma_char_boundary(s@, k);
    }
    let parts = s.split_at(offset);
    proof {
        assert(s@ =~= s@.take(k) + s@.skip(k));
        lemma_encode_concat(s@.take(k), s@.skip(k));
        assert(encode_utf8(parts.0@) =~= encode_utf8(s@.take(k)));
        lemma_encode_injective(parts.0@, s@.take(k));
    }
    parts.0
}

/// The views of a sequence of strings.
pub open spec fn views(strings: Seq<String>) -> Seq<Seq<char>> {
    Seq::new(strings.len(), |i: int| strings[i]@)
}

/// The lines, each followed by a line break.
pub open spec fn terminated(lines: Seq<Seq<char>>) -> Seq<char>
    decreases lines.len(),
{
    if lines.len() == 0 {
        Seq::empty()
    } else {
        terminated(lines.drop_last()) + lines.last().push('\n')
    }
}

/// The lines, each preceded by a line break.
pub open spec fn preceded(lines: Seq<Seq<char>>) -> Seq<char>
    decreases lines.len(),
{
    if lines.len() == 0 {
        Seq::empty()
    } else {
        preceded(lines.drop_last()) + (seq!['\n'] + lines.last())
    }
}

/// The text whose lines are `lines`: a line break between each two of them.
pub open spec fn joined(lines: Seq<Seq<char>>) -> Seq<char>
    recommends
        lines.len() > 0,
{
    terminated(lines.drop_last()) + lines.last()
}

/// No line holds a line break, and there is a line.
pub open spec fn are_lines(lines: Seq<Seq<char>>) -> bool {
    &&& lines.len() > 0
    &&& forall|i: int| 0 <= i < lines.len() ==> !(#[trigger] lines[i]).contains('\n')
}

pub proof fn lemma_terminated_concat(a: Seq<Seq<char>>, b: Seq<Seq<char>>)
    ensures
        terminated(a + b) == terminated(a) + terminated(b),
    decreases b.len(),
{
    if b.len() == 0 {
        assert(a + b =~= a);
        assert(terminated(a) + terminated(b) =~= terminated(a));
    } else {
        assert((a + b).drop_last() =~= a + b.drop_last());
        lemma_terminated_concat(a, b.drop_last());
        assert(terminated(a + b) =~= terminated(a) + terminated(b));
    }
}

pub proof fn lemma_preceded_concat(a: Seq<Seq<char>>, b: Seq<Seq<char>>)
    ensures
        preceded(a + b) == preceded(a) + preceded(b),
    decreases b.len(),
{
    if b.len() == 0 {
        assert(a + b =~= a);
        assert(preceded(a) + preceded(b) =~= preceded(a));
    } else {
        assert((a + b).drop_last() =~= a + b.drop_last());
        lemma_preceded_concat(a, b.drop_last());
        assert(preceded(a + b) =~= preceded(a) + preceded(b));
    }
}

pub proof fn lemma_terminated_one(line: Seq<char>)
    ensures
        terminated(seq![line]) == line.push('\n'),
        preceded(seq![line]) == seq!['\n'] + line,
{
    assert(seq![line].drop_last() =~= Seq::<Seq<char>>::empty());
    assert(terminated(seq![line].drop_last()) == Seq::<char>::empty());
    assert(preceded(seq![line].drop_last()) == Seq::<char>::empty());
    assert(terminated(seq![line]) =~= line.push('\n'));
    assert(preceded(seq![line]) =~= seq!['\n'] + line);
}

/// A line break after each line, or before each line: the break moves past the lines.
pub proof fn lemma_terminated_preceded(lines: Seq<Seq<char>>)
    ensures
        seq!['\n'] + terminated(lines) == preceded(lines) + seq!['\n'],
        terminated(lines).len() == preceded(lines).len(),
    decreases lines.len(),
{
    if lines.len() == 0 {
        assert(seq!['\n'] + terminated(lines) =~= preceded(lines) + seq!['\n']);
    } else {
        lemma_terminated_preceded(lines.drop_last());
        let t = terminated(lines.drop_last());
        let p = preceded(lines.drop_last());
        assert(seq!['\n'] + terminated(lines) =~= (seq!['\n'] + t) + lines.last().push('\n'));
        assert(preceded(lines) + seq!['\n'] =~= (p + seq!['\n']) + lines.last().push('\n'));
    }
}

/// The text seen from line `k`: the lines before it, the line, the lines after it.
pub proof fn lemma_joined_at(lines: Seq<Seq<char>>, k: int)
    requires
        0 <= k < lines.len(),
    ensures
        joined(lines) == terminated(lines.take(k)) + lines[k] + preceded(lines.skip(k + 1)),
    decreases lines.len() - k,
{
    if k == lines.len() - 1 {
        assert(lines.take(k) =~= lines.drop_last());
        assert(lines.skip(k + 1) =~= Seq::<Seq<char>>::empty());
        assert(preceded(lines.skip(k + 1)) == Seq::<char>::empty());
        assert(joined(lines) =~= terminated(lines.take(k)) + lines[k] + preceded(
            lines.skip(k + 1),
        ));
    } else {
        lemma_joined_at(lines, k + 1);
        assert(lines.take(k + 1).drop_last() =~= lines.take(k));
        assert(lines.skip(k + 1) =~= seq![lines[k + 1]] + lines.skip(k + 2));
        lemma_preceded_concat(seq![lines[k + 1]], lines.skip(k + 2));
        lemma_terminated_one(lines[k + 1]);
        assert(joined(lines) =~= terminated(lines.take(k)) + lines[k] + preceded(
            lines.skip(k + 1),
        ));
    }
}

/// The text that ends before line `k` grows by that line and its break.
pub proof fn lemma_terminated_step(lines: Seq<Seq<char>>, k: int)
    requires
        0 <= k < lines.len(),
    ensures
        terminated(lines.take(k + 1)) == terminated(lines.take(k)) + lines[k].push('\n'),
{
    assert(lines.take(k + 1).drop_last() =~= lines.take(k));
}

/// Line starts grow with the line number.
pub proof fn lemma_terminated_monotone(lines: Seq<Seq<char>>, i: int, j: int)
    requires
        0 <= i < j <= lines.len(),
    ensures
        terminated(lines.take(i)).len() + lines[i].len() < terminated(lines.take(j)).len(),
    decreases j - i,
{
    lemma_terminated_step(lines, j - 1);
    if i + 1 < j {
        lemma_terminated_monotone(lines, i, j - 1);
    }
}

/// A text has only one division into lines.
pub proof fn lemma_lines_unique(a: Seq<Seq<char>>, b: Seq<Seq<char>>)
    requires
        are_lines(a),
        are_lines(b),
        joined(a) == joined(b),
    ensures
        a == b,
    decreases a.len(),
{
    let t = joined(a);
    lemma_joined_at(a, a.len() - 1);
    lemma_joined_at(b, b.len() - 1);
    let pa = terminated(a.drop_last());
    let pb = terminated(b.drop_last());
    if pa.len() < pb.len() {
        assert(b.len() > 1);
        assert(t[pb.len() - 1] == '\n') by {
            assert(pb.last() == '\n');
        }
        assert(a.last()[pb.len() - 1 - pa.len()] == '\n');
        assert(a[a.len() - 1].contains('\n'));
    }
    if pb.len() < pa.len() {
        assert(a.len() > 1);
        assert(t[pa.len() - 1] == '\n') by {
            assert(pa.last() == '\n');
        }
        assert(b.last()[pa.len() - 1 - pb.len()] == '\n');
        assert(b[b.len() - 1].contains('\n'));
    }
    assert(a.last() =~= t.skip(pa.len() as int));
    assert(b.last() =~= t.skip(pb.len() as int));
    assert(pa =~= t.take(pa.len() as int));
    assert(pb =~= t.take(pb.len() as int));
    assert(a.len() == 1 <==> pa.len() == 0);
    assert(b.len() == 1 <==> pb.len() == 0);
    if a.len() == 1 {
        assert(a =~= b);
    } else {
        let a1 = a.drop_last();
        let b1 = b.drop_last();
        assert(pa =~= joined(a1).push('\n'));
        assert(pb =~= joined(b1).push('\n'));
        assert(joined(a1) =~= pa.drop_last());
        assert(joined(b1) =~= pb.drop_last());
        assert(are_lines(a1)) by {
            assert forall|i: int| 0 <= i < a1.len() implies !(#[trigger] a1[i]).contains('\n') by {
                assert(a1[i] == a[i]);
            }
        }
        assert(are_lines(b1)) by {
            assert forall|i: int| 0 <= i < b1.len() implies !(#[trigger] b1[i]).contains('\n') by {
                assert(b1[i] == b[i]);
            }
        }
        lemma_lines_unique(a1, b1);
        assert(a =~= a1.push(a.last()));
        assert(b =~= b1.push(b.last()));
    }
}

/// The lines of a text: what stands between its line breaks.
pub open spec fn lines_of(text: Seq<char>) -> Seq<Seq<char>>
    decreases text.len(),
{
    if text.len() == 0 {
        seq![Seq::empty()]
    } else {
        let before = lines_of(text.drop_last());
        if text.last() == '\n' {
            before.push(Seq::empty())
        } else {
            before.update(before.len() - 1, before.last().push(text.last()))
        }
    }
}

/// `lines_of` divides the text: joining its lines gives the text back.
pub proof fn lemma_lines_of(text: Seq<char>)
    ensures
        are_lines(lines_of(text)),
        joined(lines_of(text)) == text,
    decreases text.len(),
{
    let lines = lines_of(text);
    if text.len() == 0 {
        assert(lines.drop_last() =~= Seq::<Seq<char>>::empty());
        assert(terminated(lines.drop_last()) == Seq::<char>::empty());
        assert(joined(lines) =~= text);
    } else {
        let before = lines_of(text.drop_last());
        lemma_lines_of(text.drop_last());
        assert(text =~= text.drop_last().push(text.last()));
        if text.last() == '\n' {
            assert(lines.drop_last() =~= before);
            assert(terminated(before) =~= joined(before).push('\n'));
            assert(joined(lines) =~= text);
        } else {
            assert(lines.drop_last() =~= before.drop_last());
            assert(joined(lines) =~= text);
            assert forall|i: int| 0 <= i < lines.len() implies !(#[trigger] lines[i]).contains(
                '\n',
            ) by {
                assert(!before[i].contains('\n'));
                assert forall|j: int| 0 <= j < lines[i].len() implies lines[i][j] != '\n' by {
                    if j < before[i].len() {
                        assert(before[i].contains(before[i][j]));
                    }
                }
            }
        }
    }
}

/// The lines of the first `k` characters: the same lines, the last of them cut short.
pub proof fn lemma_lines_of_prefix(text: Seq<char>, k: int)
    requires
        0 <= k <= text.len(),
    ensures
        ({
            let lines = lines_of(text);
            let upto = lines_of(text.take(k));
            let last = upto.len() - 1;
            &&& 0 <= last < lines.len()
            &&& upto.take(last) == lines.take(last)
            &&& upto[last].len() <= lines[last].len()
            &&& upto[last] == lines[last].take(upto[last].len() as int)
            &&& k == terminated(lines.take(last)).len() + upto[last].len()
        }),
    decreases text.len(),
{
    let lines = lines_of(text);
    let upto = lines_of(text.take(k));
    let last = upto.len() - 1;
    lemma_lines_of(text.take(k));
    lemma_joined_at(upto, last);
    assert(upto.skip(last + 1) =~= Seq::<Seq<char>>::empty());
    assert(preceded(upto.skip(last + 1)) == Seq::<char>::empty());
    assert(text.take(k).len() == terminated(upto.take(last)).len() + upto[last].len());
    if k == text.len() {
        assert(text.take(k) =~= text);
        assert(upto[last] =~= lines[last].take(upto[last].len() as int));
    } else {
        let short = text.drop_last();
        lemma_lines_of_prefix(short, k);
        assert(short.take(k) =~= text.take(k));
        let before = lines_of(short);
        lemma_lines_of(short);
        assert(before.take(last) =~= lines.take(last));
        assert(upto[last] =~= lines[last].take(upto[last].len() as int));
    }
}

/// The character with index `k` of a line, in the text.
pub proof fn lemma_line_in_text(text: Seq<char>, line: int, k: int)
    requires
        0 <= line < lines_of(text).len(),
        0 <= k <= lines_of(text)[line].len(),
    ensures
        ({
            let at = terminated(lines_of(text).take(line)).len() + k;
            &&& 0 <= at <= text.len()
            &&& k < lines_of(text)[line].len() ==> at < text.len() && text[at]
                == lines_of(text)[line][k] && text[at] != '\n'
            &&& k == lines_of(text)[line].len() && at < text.len() ==> text[at] == '\n'
        }),
{
    let lines = lines_of(text);
    lemma_lines_of(text);
    lemma_joined_at(lines, line);
    let head = terminated(lines.take(line));
    let at = head.len() + k;
    let tail = preceded(lines.skip(line + 1));
    if k < lines[line].len() {
        assert(text[at] == lines[line][k]);
        assert(lines[line].contains(lines[line][k]));
    } else if line + 1 < lines.len() {
        assert(lines.skip(line + 1) =~= seq![lines[line + 1]] + lines.skip(line + 2));
        lemma_preceded_concat(seq![lines[line + 1]], lines.skip(line + 2));
        lemma_terminated_one(lines[line + 1]);
        assert(tail[0] == '\n');
        assert(text[at] == tail[0]);
    } else {
        assert(lines.skip(line + 1) =~= Seq::<Seq<char>>::empty());
        assert(tail == Seq::<char>::empty());
    }
}

/// Divides a text at its line breaks.
pub fn split_lines(text: &str) -> (lines: Vec<String>)
    ensures
        are_lines(views(lines@)),
        joined(views(lines@)) == text@,
{
    let mut done: Vec<String> = Vec::new();
    let mut current: String = String::new();
    for c in it: text.chars()
        invariant
            it.seq() == text@,
            terminated(views(done@)) + current@ == text@.take(it.index() as int),
            !current@.contains('\n'),
            forall|i: int| 0 <= i < done@.len() ==> !(#[trigger] views(done@)[i]).contains('\n'),
    {
        let ghost i = it.index() as int;
        let ghost before = views(done@);
        proof {
            assert(text@.take(i + 1) =~= text@.take(i).push(text@[i]));
        }
        if c == '\n' {
            let mut line: String = String::new();
            core::mem::swap(&mut line, &mut current);
            done.push(line);
            proof {
                assert(views(done@) =~= before.push(line@));
                assert(views(done@).drop_last() =~= before);
                assert(terminated(views(done@)) + current@ =~= text@.take(i + 1));
            }
        } else {
            let ghost old_current = current@;
            current.push(c);
            proof {
                assert(terminated(before) + current@ =~= text@.take(i + 1));
                assert forall|j: int| 0 <= j < current@.len() implies current@[j] != '\n' by {
                    if j < old_current.len() {
                        assert(current@[j] == old_current[j]);
                        assert(old_current.contains(old_current[j]));
                    }
                }
            }
        }
    }
    let ghost before = views(done@);
    let ghost tail = current@;
    done.push(current);
    proof {
        assert(views(done@) =~= before.push(tail));
        assert(views(done@).drop_last() =~= before);
        assert(text@.take(text@.len() as int) =~= text@);
        assert(joined(views(done@)) =~= text@);
    }
    done
}

/// Joins lines with a line break between each two of them.
pub fn join_lines(lines: &Vec<String>) -> (text: String)
    requires
        lines@.len() > 0,
    ensures
        text@ == joined(views(lines@)),
{
    let mut text: String = String::new();
    let n: usize = lines.len();
    let mut i: usize = 0;
    while i < n
        invariant
            n == lines@.len(),
            i <= n,
            0 < n,
            i == 0 ==> text@.len() == 0,
            i > 0 ==> text@ == joined(views(lines@).take(i as int)),
        decreases n - i,
    {
        let ghost v = views(lines@);
        if i > 0 {
            text.push('\n');
        }
        text.append(lines[i].as_str());
        proof {
            let upto = v.take(i + 1);
            assert(upto.drop_last() =~= v.take(i as int));
            assert(upto.last() == v[i as int]);
            if i == 0 {
                assert(v.take(0) =~= Seq::<Seq<char>>::empty());
                assert(terminated(v.take(0)) == Seq::<char>::empty());
                assert(text@ =~= joined(upto));
            } else {
                assert(terminated(v.take(i as int)) =~= joined(v.take(i as int)).push('\n'));
                assert(text@ =~= joined(upto));
            }
        }
        i = i + 1;
    }
    proof {
        assert(views(lines@).take(n as int) =~= views(lines@));
    }
    text
}

/// The characters with the Unicode property White_Space.
pub open spec fn is_white_space(c: char) -> bool {
    ||| '\u{9}' <= c <= '\u{d}'
    ||| c == ' ' || c == '\u{85}' || c == '\u{a0}' || c == '\u{1680}'
    ||| '\u{2000}' <= c <= '\u{200a}'
    ||| c == '\u{2028}' || c == '\u{2029}' || c == '\u{202f}' || c == '\u{205f}' || c == '\u{3000}'
}

/// `char::is_whitespace` tests for the Unicode property White_Space, which the characters of
/// `is_white_space` have and no others.
pub assume_specification[ char::is_whitespace ](c: char) -> (white: bool)
    ensures
        white == is_white_space(c),
;

/// Nothing but white space.
pub open spec fn blank(s: Seq<char>) -> bool {
    forall|i: int| 0 <= i < s.len() ==> is_white_space(#[trigger] s[i])
}

/// Whether nothing is left of `s` once white space is trimmed off.
pub fn is_blank(s: &str) -> (b: bool)
    ensures
        b == blank(s@),
{
    let mut all: bool = true;
    for c in it: s.chars()
        invariant
            it.seq() == s@,
            all == blank(s@.take(it.index() as int)),
    {
        let ghost i = it.index() as int;
        proof {
            assert(s@.take(i + 1) =~= s@.take(i).push(s@[i]));
            assert(s@.take(i + 1)[i] == s@[i]);
            if blank(s@.take(i + 1)) {
                assert forall|j: int| 0 <= j < i implies is_white_space(
                    #[trigger] s@.take(i)[j],
                ) by {
                    assert(s@.take(i + 1)[j] == s@.take(i)[j]);
                }
            }
        }
        if !c.is_whitespace() {
            all = false;
        }
    }
    proof {
        assert(s@.take(s@.len() as int) =~= s@);
    }
    all
}

/// Whether `c` occurs in `s`.
pub fn has_char(s: &str, c: char) -> (b: bool)
    ensures
        b == s@.contains(c),
{
    let mut found: bool = false;
    for x in it: s.chars()
        invariant
            it.seq() == s@,
            found == s@.take(it.index() as int).contains(c),
    {
        let ghost i = it.index() as int;
        proof {
            assert(s@.take(i + 1) =~= s@.take(i).push(s@[i]));
            assert(s@.take(i + 1)[i] == s@[i]);
            if s@.take(i).contains(c) {
                let j = s@.take(i).index_of(c);
                assert(s@.take(i + 1)[j] == c);
            }
        }
        if x == c {
            found = true;
        }
    }
    proof {
        assert(s@.take(s@.len() as int) =~= s@);
    }
    found
}

/// Whether `s` begins with `c`.
pub fn starts_with_char(s: &str, c: char) -> (b: bool)
    ensures
        b == (s@.len() > 0 && s@[0] == c),
{
    let mut chars = s.chars();
    match chars.next() {
        Some(first) => first == c,
        None => false,
    }
}

/// Whether two texts are equal.
pub fn same_text(a: &str, b: &str) -> (same: bool)
    ensures
        same == (a@ == b@),
{
    let x: &[u8] = a.as_bytes();
    let y: &[u8] = b.as_bytes();
    let n: usize = x.len();
    if n != y.len() {
        return false;
    }
    let mut i: usize = 0;
    while i < n
        invariant
            n == x@.len(),
            n == y@.len(),
            i <= n,
            x@ == encode_utf8(a@),
            y@ == encode_utf8(b@),
            forall|j: int| 0 <= j < i ==> x@[j] == y@[j],
        decreases n - i,
    {
        if x[i] != y[i] {
            return false;
        }
        i = i + 1;
    }
    proof {
        assert(x@ =~= y@);
        lemma_encode_injective(a@, b@);
    }
    true
}

/// The digit character of a number below ten.
pub open spec fn digit_char(d: nat) -> char {
    (('0' as u32) + d) as char
}

/// The decimal notation of a number.
pub open spec fn decimal(n: nat) -> Seq<char>
    decreases n,
{
    if n < 10 {
        seq![digit_char(n)]
    } else {
        decimal(n / 10).push(digit_char(n % 10))
    }
}

fn digit_of(d: u64) -> (c: char)
    requires
        d < 10,
    ensures
        c == digit_char(d as nat),
{
    match d {
        0 => '0',
        1 => '1',
        2 => '2',
        3 => '3',
        4 => '4',
        5 => '5',
        6 => '6',
        7 => '7',
        8 => '8',
        _ => '9',
    }
}

/// The number that a sequence of decimal digits stands for.
pub open spec fn number_of(digits: Seq<char>) -> int
    decreases digits.len(),
{
    if digits.len() == 0 {
        0
    } else {
        10 * number_of(digits.drop_last()) + (digits.last() as int - '0' as int)
    }
}

/// Whether there is a character, and each is a decimal digit.
pub open spec fn is_number(s: Seq<char>) -> bool {
    s.len() > 0 && forall|i: int| 0 <= i < s.len() ==> '0' <= #[trigger] s[i] && s[i] <= '9'
}

/// A number reads back from its decimal notation, which is made of digits alone and has no zero in
/// front but for the number 0. So no two numbers are written alike.
pub proof fn law_decimal_reads_back(n: nat)
    ensures
        is_number(decimal(n)),
        number_of(decimal(n)) == n,
        n > 0 ==> decimal(n)[0] != '0',
        n == 0 ==> decimal(n).len() == 1,
    decreases n,
{
    let last = digit_char(n % 10);
    if n >= 10 {
        law_decimal_reads_back(n / 10);
        assert(decimal(n).drop_last() =~= decimal(n / 10));
        assert(n == 10 * (n / 10) + n % 10);
    } else {
        assert(decimal(n).drop_last() =~= Seq::<char>::empty());
        assert(number_of(decimal(n).drop_last()) == 0);
    }
}

/// Two texts that agree once each is put behind a separator, where neither holds it, are the same.
pub proof fn lemma_last_separator(x: Seq<char>, a: Seq<char>, y: Seq<char>, b: Seq<char>, c: char)
    requires
        x + seq![c] + a == y + seq![c] + b,
        !a.contains(c),
        !b.contains(c),
    ensures
        x == y,
        a == b,
{
    let s = x + seq![c] + a;
    let t = y + seq![c] + b;
    assert(s.len() == x.len() + 1 + a.len());
    assert(t.len() == y.len() + 1 + b.len());
    if x.len() < y.len() {
        assert(t[y.len() as int] == c);
        let k = y.len() - x.len() - 1;
        assert(0 <= k < a.len());
        assert(s[x.len() + 1 + k] == a[k]);
        assert(a.contains(c));
    } else if y.len() < x.len() {
        assert(s[x.len() as int] == c);
        let k = x.len() - y.len() - 1;
        assert(0 <= k < b.len());
        assert(t[y.len() + 1 + k] == b[k]);
        assert(b.contains(c));
    }
    assert(x =~= s.take(x.len() as int));
    assert(y =~= t.take(x.len() as int));
    assert(a =~= s.skip(x.len() as int + 1));
    assert(b =~= t.skip(x.len() as int + 1));
}

/// Two texts that agree once each is put before a separator, where neither holds it, are the same.
pub proof fn lemma_first_separator(a: Seq<char>, x: Seq<char>, b: Seq<char>, y: Seq<char>, c: char)
    requires
        a + seq![c] + x == b + seq![c] + y,
        !a.contains(c),
        !b.contains(c),
    ensures
        x == y,
        a == b,
{
    let s = a + seq![c] + x;
    let t = b + seq![c] + y;
    if a.len() < b.len() {
        assert(s[a.len() as int] == c);
        assert(t[a.len() as int] == b[a.len() as int]);
        assert(b.contains(c));
    } else if b.len() < a.len() {
        assert(t[b.len() as int] == c);
        assert(s[b.len() as int] == a[b.len() as int]);
        assert(a.contains(c));
    }
    assert(a =~= s.take(a.len() as int));
    assert(b =~= t.take(a.len() as int));
    assert(x =~= s.skip(a.len() as int + 1));
    assert(y =~= t.skip(a.len() as int + 1));
}

/// Writes a number in decimal notation.
pub fn decimal_string(n: u64) -> (s: String)
    ensures
        s@ == decimal(n as nat),
    decreases n,
{
    if n < 10 {
        let mut s: String = String::new();
        s.push(digit_of(n));
        proof {
            assert(s@ =~= decimal(n as nat));
        }
        s
    } else {
        let mut s: String = decimal_string(n / 10);
        s.push(digit_of(n % 10));
        s
    }
}

/// Whether `str::parse` reads the text as an IPv6 address.
pub uninterp spec fn ipv6_literal(s: Seq<char>) -> bool;

/// Calls `str::parse` for `core::net::Ipv6Addr`: whether the text is an IPv6 address.
///
/// Claimed of it: the answer depends on the text alone, and it is no for a text without a colon.
#[verifier::external_body]
pub(crate) fn is_ipv6(s: &str) -> (b: bool)
    ensures
        b == ipv6_literal(s@),
        !s@.contains(':') ==> !b,
{
    s.parse::<core::net::Ipv6Addr>().is_ok()
}

/// The view of an optional text.
pub open spec fn opt_view(s: Option<String>) -> Option<Seq<char>> {
    match s {
        Some(t) => Some(t@),
        None => None,
    }
}

/// The text without the white space at its end.
pub open spec fn trimmed_end(s: Seq<char>) -> Seq<char>
    decreases s.len(),
{
    if s.len() > 0 && is_white_space(s.last()) {
        trimmed_end(s.drop_last())
    } else {
        s
    }
}

/// The text without the white space at its start.
pub open spec fn trimmed_start(s: Seq<char>) -> Seq<char>
    decreases s.len(),
{
    if s.len() > 0 && is_white_space(s[0]) {
        trimmed_start(s.drop_first())
    } else {
        s
    }
}

/// The text without the white space at both ends.
pub open spec fn trimmed(s: Seq<char>) -> Seq<char> {
    trimmed_start(trimmed_end(s))
}

/// Trimming takes off white space, and all of it: what is taken off before and behind is white space,
/// and what is left, if anything, neither begins nor ends with it.
pub proof fn law_trimming_takes_off_white_space(s: Seq<char>)
    ensures
        exists|a: Seq<char>, b: Seq<char>|
            blank(a) && blank(b) && s == #[trigger] (a + trimmed(s) + b),
        exists|b: Seq<char>| blank(b) && s == #[trigger] (trimmed_end(s) + b),
        trimmed(s).len() > 0 ==> !is_white_space(trimmed(s)[0]) && !is_white_space(
            trimmed(s).last(),
        ),
        trimmed_end(s).len() > 0 ==> !is_white_space(trimmed_end(s).last()),
        trimmed(s).len() == 0 <==> blank(s),
{
    let b = lemma_trimmed_end_rest(s);
    let a = lemma_trimmed_start_rest(trimmed_end(s));
    let t = trimmed(s);
    assert(s == trimmed_end(s) + b);
    assert(s == a + t + b);
    if t.len() > 0 {
        assert(t.last() == trimmed_end(s).last());
        if blank(s) {
            assert(s[a.len() as int] == t[0]);
        }
    } else {
        assert forall|i: int| 0 <= i < s.len() implies is_white_space(#[trigger] s[i]) by {
            if i < a.len() {
                assert(s[i] == a[i]);
            } else {
                assert(s[i] == b[i - a.len()]);
            }
        }
    }
}

proof fn lemma_trimmed_end_rest(s: Seq<char>) -> (b: Seq<char>)
    ensures
        blank(b),
        s == trimmed_end(s) + b,
        trimmed_end(s).len() > 0 ==> !is_white_space(trimmed_end(s).last()),
    decreases s.len(),
{
    if s.len() > 0 && is_white_space(s.last()) {
        let b = lemma_trimmed_end_rest(s.drop_last());
        let kept = trimmed_end(s);
        assert(s =~= s.drop_last().push(s.last()));
        assert((kept + b).push(s.last()) =~= kept + b.push(s.last()));
        b.push(s.last())
    } else {
        assert(s =~= s + Seq::<char>::empty());
        Seq::empty()
    }
}

proof fn lemma_trimmed_start_rest(s: Seq<char>) -> (a: Seq<char>)
    ensures
        blank(a),
        s == a + trimmed_start(s),
        trimmed_start(s).len() > 0 ==> !is_white_space(trimmed_start(s)[0]),
    decreases s.len(),
{
    if s.len() > 0 && is_white_space(s[0]) {
        let a = lemma_trimmed_start_rest(s.drop_first());
        let kept = trimmed_start(s);
        assert(s =~= seq![s[0]] + s.drop_first());
        assert(seq![s[0]] + (a + kept) =~= seq![s[0]] + a + kept);
        seq![s[0]] + a
    } else {
        assert(s =~= Seq::<char>::empty() + s);
        Seq::empty()
    }
}

proof fn lemma_trimmed_end(s: Seq<char>, k: int)
    requires
        0 <= k <= s.len(),
        k > 0 ==> !is_white_space(s[k - 1]),
        forall|i: int| k <= i < s.len() ==> is_white_space(#[trigger] s[i]),
    ensures
        trimmed_end(s) == s.take(k),
    decreases s.len(),
{
    if k == s.len() {
        assert(s.take(k) =~= s);
    } else {
        assert(is_white_space(s[s.len() - 1]));
        lemma_trimmed_end(s.drop_last(), k);
        assert(s.drop_last().take(k) =~= s.take(k));
    }
}

proof fn lemma_trimmed_start(s: Seq<char>, k: int)
    requires
        0 <= k <= s.len(),
        k < s.len() ==> !is_white_space(s[k]),
        forall|i: int| 0 <= i < k ==> is_white_space(#[trigger] s[i]),
    ensures
        trimmed_start(s) == s.skip(k),
    decreases s.len(),
{
    if k == 0 {
        assert(s.skip(k) =~= s);
    } else {
        assert(is_white_space(s[0]));
        assert forall|i: int| 0 <= i < k - 1 implies is_white_space(
            #[trigger] s.drop_first()[i],
        ) by {
            assert(s.drop_first()[i] == s[i + 1]);
        }
        lemma_trimmed_start(s.drop_first(), k - 1);
        assert(s.drop_first().skip(k - 1) =~= s.skip(k));
    }
}

/// The characters of a text.
pub fn chars_of(s: &str) -> (v: Vec<char>)
    ensures
        v@ == s@,
{
    let mut v: Vec<char> = Vec::new();
    for c in it: s.chars()
        invariant
            it.seq() == s@,
            v@ == s@.take(it.index() as int),
    {
        proof {
            let i = it.index() as int;
            assert(s@.take(i + 1) =~= s@.take(i).push(s@[i]));
        }
        v.push(c);
    }
    proof {
        assert(s@.take(s@.len() as int) =~= s@);
    }
    v
}

/// `s` without the white space at its end.
pub fn trim_end(s: &str) -> (r: &str)
    ensures
        r@ == trimmed_end(s@),
{
    let chars: Vec<char> = chars_of(s);
    let mut k: usize = chars.len();
    while k > 0 && chars[k - 1].is_whitespace()
        invariant
            chars@ == s@,
            k <= s@.len(),
            forall|i: int| k <= i < s@.len() ==> is_white_space(#[trigger] s@[i]),
        decreases k,
    {
        k = k - 1;
    }
    proof {
        lemma_trimmed_end(s@, k as int);
    }
    s.substring_char(0, k)
}

/// A line without the line break at its end, and without any before it.
pub open spec fn without_breaks(s: Seq<char>) -> Seq<char>
    decreases s.len(),
{
    if s.len() > 0 && (s.last() == '\r' || s.last() == '\n') {
        without_breaks(s.drop_last())
    } else {
        s
    }
}

/// Only line breaks are taken off the end of a line, and all of them.
pub proof fn law_only_breaks_are_taken_off(s: Seq<char>) -> (b: Seq<char>)
    ensures
        s == without_breaks(s) + b,
        forall|i: int| 0 <= i < b.len() ==> #[trigger] b[i] == '\r' || b[i] == '\n',
        without_breaks(s).len() > 0 ==> without_breaks(s).last() != '\r' && without_breaks(s).last()
            != '\n',
    decreases s.len(),
{
    if s.len() > 0 && (s.last() == '\r' || s.last() == '\n') {
        let b = law_only_breaks_are_taken_off(s.drop_last());
        let kept = without_breaks(s);
        assert(s =~= s.drop_last().push(s.last()));
        assert((kept + b).push(s.last()) =~= kept + b.push(s.last()));
        b.push(s.last())
    } else {
        assert(s =~= s + Seq::<char>::empty());
        Seq::empty()
    }
}

/// A line without the line break at its end, and without any before it.
pub fn trim_breaks(line: &str) -> (r: &str)
    ensures
        r@ == without_breaks(line@),
{
    let chars: Vec<char> = chars_of(line);
    let mut n: usize = chars.len();
    proof {
        assert(line@.take(n as int) =~= line@);
    }
    while n > 0 && (chars[n - 1] == '\r' || chars[n - 1] == '\n')
        invariant
            chars@ == line@,
            n <= chars@.len(),
            without_breaks(line@) == without_breaks(line@.take(n as int)),
        decreases n,
    {
        proof {
            assert(line@.take(n as int).drop_last() =~= line@.take(n - 1));
        }
        n = n - 1;
    }
    proof {
        assert(without_breaks(line@) == line@.take(n as int));
        assert(line@.subrange(0, n as int) =~= line@.take(n as int));
    }
    line.substring_char(0, n)
}

/// `s` without the white space at both ends.
pub fn trim(s: &str) -> (r: &str)
    ensures
        r@ == trimmed(s@),
{
    let t: &str = trim_end(s);
    let chars: Vec<char> = chars_of(t);
    let n: usize = chars.len();
    let mut k: usize = 0;
    while k < n && chars[k].is_whitespace()
        invariant
            chars@ == t@,
            n == t@.len(),
            k <= n,
            forall|i: int| 0 <= i < k ==> is_white_space(#[trigger] t@[i]),
        decreases n - k,
    {
        k = k + 1;
    }
    proof {
        lemma_trimmed_start(t@, k as int);
        assert(t@.subrange(k as int, n as int) =~= t@.skip(k as int));
    }
    t.substring_char(k, n)
}

/// Whether `needle` occurs in `hay`.
pub open spec fn occurs(hay: Seq<char>, needle: Seq<char>) -> bool {
    exists|i: int|
        0 <= i <= hay.len() - needle.len() && #[trigger] hay.subrange(i, i + needle.len())
            == needle
}

/// Whether `needle` occurs in `hay`.
pub fn contains_text(hay: &str, needle: &str) -> (b: bool)
    ensures
        b == occurs(hay@, needle@),
{
    let h: Vec<char> = chars_of(hay);
    let w: Vec<char> = chars_of(needle);
    let n: usize = h.len();
    let m: usize = w.len();
    if m > n {
        return false;
    }
    let mut i: usize = 0;
    while i <= n - m
        invariant
            h@ == hay@,
            w@ == needle@,
            n == h@.len(),
            m == w@.len(),
            m <= n,
            i <= n - m + 1,
            forall|k: int| 0 <= k < i ==> #[trigger] hay@.subrange(k, k + m) != needle@,
        decreases n - m + 1 - i,
    {
        let mut j: usize = 0;
        while j < m && h[i + j] == w[j]
            invariant
                h@ == hay@,
                w@ == needle@,
                n == h@.len(),
                m == w@.len(),
                m <= n,
                i <= n - m,
                j <= m,
                forall|k: int| 0 <= k < j ==> hay@[i + k] == #[trigger] needle@[k],
            decreases m - j,
        {
            j = j + 1;
        }
        if j == m {
            proof {
                assert(hay@.subrange(i as int, i + m) =~= needle@);
            }
            return true;
        }
        proof {
            assert(hay@.subrange(i as int, i + m)[j as int] == hay@[i + j]);
        }
        if i == n - m {
            return false;
        }
        i = i + 1;
    }
    false
}

/// A text occurs in another exactly if the other is something, that text, and something.
pub proof fn law_occurs_between_two_parts(hay: Seq<char>, needle: Seq<char>)
    ensures
        occurs(hay, needle) <==> exists|before: Seq<char>, behind: Seq<char>|
            hay == #[trigger] (before + needle + behind),
{
    if occurs(hay, needle) {
        let i = choose|i: int|
            0 <= i <= hay.len() - needle.len() && #[trigger] hay.subrange(i, i + needle.len())
                == needle;
        let before = hay.take(i);
        let behind = hay.skip(i + needle.len());
        assert(hay =~= before + hay.subrange(i, i + needle.len()) + behind);
        assert(hay == before + needle + behind);
    }
    if exists|before: Seq<char>, behind: Seq<char>| hay == #[trigger] (before + needle + behind) {
        let (before, behind) = choose|before: Seq<char>, behind: Seq<char>|
            hay == #[trigger] (before + needle + behind);
        let i = before.len() as int;
        assert(hay.subrange(i, i + needle.len()) =~= needle);
    }
}

/// What stands between two parts of a text occurs in it.
pub proof fn lemma_occurs_in(whole: Seq<char>, before: Seq<char>, part: Seq<char>, behind: Seq<char>)
    requires
        whole =~= before + part + behind,
    ensures
        occurs(whole, part),
{
    law_occurs_between_two_parts(whole, part);
}

/// The lower-case form of a text.
pub uninterp spec fn lowercase(s: Seq<char>) -> Seq<char>;

/// An ASCII letter in lower case, any other character as it is.
pub open spec fn ascii_lower(c: char) -> char {
    if 'A' <= c <= 'Z' {
        (c as u32 + 32) as char
    } else {
        c
    }
}

/// Whether every character is ASCII.
pub open spec fn all_ascii(s: Seq<char>) -> bool {
    forall|i: int| 0 <= i < s.len() ==> (#[trigger] s[i]) < '\u{80}'
}

/// A text with its ASCII letters in lower case.
pub open spec fn ascii_lowered(s: Seq<char>) -> Seq<char> {
    s.map_values(|c: char| ascii_lower(c))
}

/// Calls `str::to_lowercase`.
///
/// Claimed of it: the result depends on the text alone, and of a text whose characters are all ASCII
/// it is the text with its capital letters in lower case.
#[verifier::external_body]
pub(crate) fn to_lowercase(s: &str) -> (r: String)
    ensures
        r@ == lowercase(s@),
        all_ascii(s@) ==> r@ == ascii_lowered(s@),
{
    s.to_lowercase()
}

/// The number of characters of `line` that end at or before the byte offset `bytes`.
pub fn chars_within(line: &str, bytes: usize) -> (col: usize)
    ensures
        col <= line@.len(),
        byte_offset(line@, col as int) <= bytes,
        col < line@.len() ==> bytes < byte_offset(line@, col + 1),
{
    let total: usize = byte_count(line);
    let mut consumed: usize = 0;
    let mut col: usize = 0;
    let mut stopped: bool = false;
    proof {
        assert(line@.take(0) =~= Seq::<char>::empty());
    }
    for c in it: line.chars()
        invariant
            it.seq() == line@,
            total == byte_len(line@),
            col <= it.index(),
            !stopped ==> col == it.index(),
            consumed == byte_offset(line@, col as int),
            consumed <= bytes,
            stopped ==> col < line@.len() && bytes < byte_offset(line@, col + 1),
    {
        if !stopped {
            let width: usize = width_of(c);
            proof {
                lemma_byte_offset_step(line@, col as int);
                lemma_byte_offset_monotone(line@, col + 1, line@.len() as int);
                lemma_byte_len_bounds(line@);
            }
            if consumed + width > bytes {
                stopped = true;
            } else {
                consumed = consumed + width;
                col = col + 1;
            }
        }
    }
    col
}

/// A text in double quotes, with what is not plain in it escaped.
pub uninterp spec fn quoted(s: Seq<char>) -> Seq<char>;

/// Whether a character stands for itself in a quoted text, wherever it stands.
pub open spec fn is_plain(c: char) -> bool {
    ' ' <= c <= '~' && c != '"' && c != '\\'
}

/// Formats a text with `Debug`.
///
/// Claimed of it: the result depends on the text alone, and of a text of plain characters it is the
/// text between two double quotes.
#[verifier::external_body]
pub(crate) fn quote(s: &str) -> (r: String)
    ensures
        r@ == quoted(s@),
        (forall|i: int| 0 <= i < s@.len() ==> is_plain(#[trigger] s@[i])) ==> r@ == seq!['"'] + s@
            + seq!['"'],
{
    format!("{s:?}")
}

/// A time in seconds, with one digit after the point.
pub uninterp spec fn seconds(ms: u64) -> Seq<char>;

/// Formats a time in seconds, as `core::time::Duration::as_secs_f32` gives them, with one digit after
/// the point.
///
/// Claimed of it: the result depends on the time alone, and of a number of whole seconds that a
/// 32-bit float holds exactly it is that number, with a zero after the point.
#[verifier::external_body]
pub(crate) fn seconds_text(ms: u64) -> (r: String)
    ensures
        r@ == seconds(ms),
        ms % 1000 == 0 && ms / 1000 <= 0x100_0000 ==> r@ == decimal((ms / 1000) as nat) + seq!['.', '0'],
{
    format!("{:.1}", core::time::Duration::from_millis(ms).as_secs_f32())
}

/// Calls `String::from_utf8`.
///
/// Claimed of it: bytes that are valid UTF-8 give the text that they encode, any others give none.
#[verifier::external_body]
pub(crate) fn from_utf8(bytes: Vec<u8>) -> (s: Option<String>)
    ensures
        s is Some <==> vstd::utf8::valid_utf8(bytes@),
        s matches Some(t) ==> t@ == vstd::utf8::decode_utf8(bytes@),
{
    String::from_utf8(bytes).ok()
}

/// The text that bytes stand for, with a replacement for what is no UTF-8.
pub uninterp spec fn lossy(bytes: Seq<u8>) -> Seq<char>;

/// Calls `String::from_utf8_lossy`.
///
/// Claimed of it: the result depends on the bytes alone, and of valid UTF-8 it is the text that they
/// encode.
#[verifier::external_body]
pub(crate) fn from_utf8_lossy(bytes: &Vec<u8>) -> (s: String)
    ensures
        s@ == lossy(bytes@),
        vstd::utf8::valid_utf8(bytes@) ==> s@ == vstd::utf8::decode_utf8(bytes@),
{
    String::from_utf8_lossy(bytes).into_owned()
}

} // verus!
