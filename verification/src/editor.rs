//! The position-to-text editor: splices comment markers into source text at
//! the places the spans name.

use vstd::prelude::*;
use vstd::std_specs::iter::IteratorSpec;
use vstd::string::StringExecFns;
use vstd::utf8::{encode_utf8, is_char_boundary};
use crate::position::{
    lemma_line_end_bounds, lemma_line_end_same_line, lemma_line_start_after,
    lemma_line_start_bounds, lemma_offset_bounds, line_end, line_start, offset_of, MatchSpan,
    SourcePosition,
};

verus! {

/// Which of the two markers an insertion places.
#[derive(Clone, Copy, Debug, PartialEq, Eq, Structural)]
pub enum InsertType {
    CommentStart,
    CommentEnd,
}

/// One marker to place, and where.
pub struct Insertion {
    pub kind: InsertType,
    pub at: SourcePosition,
}

/// The text of a marker.
pub open spec fn marker_text(kind: InsertType) -> Seq<char> {
    match kind {
        InsertType::CommentStart => "/* cleaned by clippy_lint_tester "@,
        InsertType::CommentEnd => " */"@,
    }
}

/// The markers that a list of spans asks for, in the order they are placed:
/// for each span its opening marker at the start, then its closing marker at
/// the end.
pub open spec fn insertions(sections: Seq<MatchSpan>) -> Seq<Insertion>
    decreases sections.len(),
{
    if sections.len() == 0 {
        Seq::empty()
    } else {
        seq![
            Insertion { kind: InsertType::CommentStart, at: sections[0].start },
            Insertion { kind: InsertType::CommentEnd, at: sections[0].end },
        ] + insertions(sections.drop_first())
    }
}

/// The text from `cursor` on with the markers of `points` spliced in. Each
/// marker goes at the index its position denotes, or at the place of the
/// marker before it when that lies further on; all other characters are kept
/// as they are.
pub open spec fn spliced(text: Seq<char>, points: Seq<Insertion>, cursor: int) -> Seq<char>
    decreases points.len(),
{
    if points.len() == 0 {
        text.skip(cursor)
    } else {
        let place = offset_of(text, points[0].at);
        let at = if place < cursor {
            cursor
        } else {
            place
        };
        text.subrange(cursor, at) + marker_text(points[0].kind) + spliced(
            text,
            points.drop_first(),
            at,
        )
    }
}

/// The source text with every span wrapped in comment markers.
pub open spec fn commented(text: Seq<char>, sections: Seq<MatchSpan>) -> Seq<char> {
    spliced(text, insertions(sections), 0)
}

/// The markers still to be placed once `done` spans are finished and, when
/// `closing` holds, the next span has been opened.
spec fn pending(sections: Seq<MatchSpan>, done: int, closing: bool) -> Seq<Insertion> {
    if closing {
        seq![Insertion { kind: InsertType::CommentEnd, at: sections[done].end }] + insertions(
            sections.skip(done + 1),
        )
    } else {
        insertions(sections.skip(done))
    }
}

proof fn lemma_pending_unfold(sections: Seq<MatchSpan>, done: int)
    requires
        0 <= done < sections.len(),
    ensures
        pending(sections, done, false) == seq![
            Insertion { kind: InsertType::CommentStart, at: sections[done].start },
        ] + pending(sections, done, true),
{
    assert(sections.skip(done).drop_first() == sections.skip(done + 1));
    assert(sections.skip(done)[0] == sections[done]);
    let open = Insertion { kind: InsertType::CommentStart, at: sections[done].start };
    let close = Insertion { kind: InsertType::CommentEnd, at: sections[done].end };
    assert(seq![open, close] + insertions(sections.skip(done + 1)) =~= seq![open] + (seq![close]
        + insertions(sections.skip(done + 1))));
}

/// The line a position names, with line 0 read as the first line.
spec fn named_line(at: SourcePosition) -> nat {
    if at.line == 0 {
        1
    } else {
        at.line as nat
    }
}

/// When a scan standing at `index`, on the line numbered `line` that began
/// at `begun`, has reached the place a position denotes.
proof fn lemma_reached(text: Seq<char>, index: int, begun: int, line: nat, at: SourcePosition)
    requires
        0 <= begun <= index <= text.len(),
        1 <= line,
        line_start(text, line) == begun,
        forall|j: int| begun <= j < index ==> text[j] != '\n',
    ensures
        named_line(at) < line ==> offset_of(text, at) <= index,
        named_line(at) > line && index < text.len() ==> offset_of(text, at) > index,
        named_line(at) == line ==> (offset_of(text, at) <= index <==> at.column <= index - begun
            || index == text.len() || text[index] == '\n'),
        index == text.len() ==> offset_of(text, at) <= index,
{
    let named = named_line(at);
    assert(line_start(text, at.line as nat) == line_start(text, named));
    lemma_offset_bounds(text, at);
    lemma_line_end_bounds(text, begun);
    lemma_line_end_bounds(text, index);
    assert(index <= line_end(text, begun));
    lemma_line_end_same_line(text, begun, index);
    lemma_line_start_bounds(text, named);
    lemma_line_end_bounds(text, line_start(text, named));
    if named < line {
        lemma_line_start_after(text, named, line);
    }
    if named > line {
        lemma_line_start_after(text, line, named);
    }
}

/// How many line breaks a text holds.
pub open spec fn line_breaks(text: Seq<char>) -> nat
    decreases text.len(),
{
    if text.len() == 0 {
        0
    } else {
        line_breaks(text.drop_last()) + if text.last() == '\n' {
            1nat
        } else {
            0nat
        }
    }
}

/// The line breaks of two texts joined are those of the one and those of
/// the other.
pub proof fn lemma_line_breaks_joined(left: Seq<char>, right: Seq<char>)
    ensures
        line_breaks(left + right) == line_breaks(left) + line_breaks(right),
    decreases right.len(),
{
    if right.len() == 0 {
        assert(left + right == left);
    } else {
        assert((left + right).drop_last() == left + right.drop_last());
        lemma_line_breaks_joined(left, right.drop_last());
    }
}

/// A text without the line-break character holds no line break.
pub proof fn lemma_no_line_breaks(text: Seq<char>)
    requires
        forall|i: int| 0 <= i < text.len() ==> text[i] != '\n',
    ensures
        line_breaks(text) == 0,
    decreases text.len(),
{
    if text.len() > 0 {
        lemma_no_line_breaks(text.drop_last());
    }
}

/// Neither marker holds a line break.
pub proof fn lemma_marker_on_one_line(kind: InsertType)
    ensures
        line_breaks(marker_text(kind)) == 0,
        marker_text(kind).len() == match kind {
            InsertType::CommentStart => 33nat,
            InsertType::CommentEnd => 3nat,
        },
{
    reveal_strlit("/* cleaned by clippy_lint_tester ");
    reveal_strlit(" */");
    lemma_no_line_breaks(marker_text(kind));
}

/// With no spans to wrap, the text comes back character for character.
pub proof fn lemma_no_sections_no_change(text: Seq<char>)
    ensures
        commented(text, Seq::empty()) == text,
{
    assert(text.skip(0) == text);
}

/// Splicing markers in keeps the number of line breaks.
pub proof fn lemma_spliced_line_breaks(text: Seq<char>, points: Seq<Insertion>, cursor: int)
    requires
        0 <= cursor <= text.len(),
    ensures
        line_breaks(spliced(text, points, cursor)) == line_breaks(text.skip(cursor)),
    decreases points.len(),
{
    if points.len() > 0 {
        lemma_offset_bounds(text, points[0].at);
        let place = offset_of(text, points[0].at);
        let at = if place < cursor {
            cursor
        } else {
            place
        };
        let before = text.subrange(cursor, at);
        let marker = marker_text(points[0].kind);
        let after = spliced(text, points.drop_first(), at);
        lemma_spliced_line_breaks(text, points.drop_first(), at);
        lemma_marker_on_one_line(points[0].kind);
        lemma_line_breaks_joined(before, marker);
        lemma_line_breaks_joined(before + marker, after);
        lemma_line_breaks_joined(before, text.skip(at));
        assert(before + text.skip(at) == text.skip(cursor));
    }
}

/// The cleaned text has as many line breaks, and so as many lines, as the
/// text it was made from.
pub proof fn lemma_line_count_kept(text: Seq<char>, sections: Seq<MatchSpan>)
    ensures
        line_breaks(commented(text, sections)) == line_breaks(text),
{
    lemma_spliced_line_breaks(text, insertions(sections), 0);
    assert(text.skip(0) == text);
}

/// Two markers are asked for per span.
pub proof fn lemma_insertions_len(sections: Seq<MatchSpan>)
    ensures
        insertions(sections).len() == 2 * sections.len(),
    decreases sections.len(),
{
    if sections.len() > 0 {
        lemma_insertions_len(sections.drop_first());
    }
}

/// How many characters the markers of `points` add up to.
pub open spec fn markers_len(points: Seq<Insertion>) -> nat
    decreases points.len(),
{
    if points.len() == 0 {
        0
    } else {
        marker_text(points[0].kind).len() + markers_len(points.drop_first())
    }
}

/// Splicing adds the markers and nothing else: the result is as long as the
/// rest of the text and the markers together.
pub proof fn lemma_spliced_len(text: Seq<char>, points: Seq<Insertion>, cursor: int)
    requires
        0 <= cursor <= text.len(),
    ensures
        spliced(text, points, cursor).len() == text.len() - cursor + markers_len(points),
    decreases points.len(),
{
    if points.len() > 0 {
        lemma_offset_bounds(text, points[0].at);
        let place = offset_of(text, points[0].at);
        let at = if place < cursor {
            cursor
        } else {
            place
        };
        lemma_spliced_len(text, points.drop_first(), at);
    }
}

/// The cleaned text holds one opening and one closing marker for each span
/// beside the characters of the text: it is longer by 36 characters a span.
pub proof fn lemma_commented_len(text: Seq<char>, sections: Seq<MatchSpan>)
    ensures
        commented(text, sections).len() == text.len() + 36 * sections.len(),
    decreases sections.len(),
{
    lemma_spliced_len(text, insertions(sections), 0);
    lemma_markers_of_sections(sections);
}

proof fn lemma_markers_of_sections(sections: Seq<MatchSpan>)
    ensures
        markers_len(insertions(sections)) == 36 * sections.len(),
    decreases sections.len(),
{
    if sections.len() > 0 {
        let points = insertions(sections);
        lemma_markers_of_sections(sections.drop_first());
        lemma_marker_on_one_line(InsertType::CommentStart);
        lemma_marker_on_one_line(InsertType::CommentEnd);
        assert(points.drop_first().drop_first() == insertions(sections.drop_first()));
        assert(points.drop_first()[0].kind == InsertType::CommentEnd);
        assert(markers_len(points.drop_first()) == 3 + markers_len(
            points.drop_first().drop_first(),
        ));
    }
}

/// One span whose end lies no earlier than its start is wrapped exactly:
/// the text before it, the opening marker, the span's own text, the closing
/// marker, the text after it.
pub proof fn lemma_one_section_wrapped(text: Seq<char>, section: MatchSpan)
    requires
        offset_of(text, section.start) <= offset_of(text, section.end),
    ensures
        commented(text, seq![section]) == text.take(offset_of(text, section.start)) + marker_text(
            InsertType::CommentStart,
        ) + text.subrange(offset_of(text, section.start), offset_of(text, section.end))
            + marker_text(InsertType::CommentEnd) + text.skip(offset_of(text, section.end)),
{
    let points = insertions(seq![section]);
    lemma_offset_bounds(text, section.start);
    lemma_offset_bounds(text, section.end);
    assert(seq![section].drop_first() == Seq::<MatchSpan>::empty());
    assert(insertions(seq![section].drop_first()) == Seq::<Insertion>::empty());
    let open = Insertion { kind: InsertType::CommentStart, at: section.start };
    let close = Insertion { kind: InsertType::CommentEnd, at: section.end };
    assert(points == seq![open, close]);
    assert(points.drop_first() == seq![close]);
    assert(points.drop_first().drop_first() == Seq::<Insertion>::empty());
    let from = offset_of(text, section.start);
    let to = offset_of(text, section.end);
    assert(spliced(text, points.drop_first().drop_first(), to) == text.skip(to));
    assert(spliced(text, points.drop_first(), from) == text.subrange(from, to) + marker_text(
        InsertType::CommentEnd,
    ) + text.skip(to));
    assert(text.subrange(0, from) == text.take(from));
    assert(commented(text, seq![section]) == text.take(from) + marker_text(
        InsertType::CommentStart,
    ) + (text.subrange(from, to) + marker_text(InsertType::CommentEnd) + text.skip(to)));
}

/// Whether spans follow one another in the text: each starts on a line
/// that there is, ends no earlier than it starts, and the next starts no
/// earlier than it ends.
pub open spec fn follow_one_another(sections: Seq<MatchSpan>) -> bool {
    &&& forall|i: int|
        0 <= i < sections.len() ==> 1 <= (#[trigger] sections[i]).start.line
            && sections[i].start.precedes(sections[i].end)
    &&& forall|i: int|
        0 <= i < sections.len() - 1 ==> (#[trigger] sections[i]).end.precedes(
            sections[i + 1].start,
        )
}

/// The text from `cursor` on with each span wrapped where it stands: what
/// lies before the span, the opening marker, the span's own text, the
/// closing marker, and so on behind it.
pub open spec fn wrapped(text: Seq<char>, sections: Seq<MatchSpan>, cursor: int) -> Seq<char>
    decreases sections.len(),
{
    if sections.len() == 0 {
        text.skip(cursor)
    } else {
        let from = offset_of(text, sections[0].start);
        let to = offset_of(text, sections[0].end);
        text.subrange(cursor, from) + marker_text(InsertType::CommentStart) + text.subrange(
            from,
            to,
        ) + marker_text(InsertType::CommentEnd) + wrapped(text, sections.drop_first(), to)
    }
}

/// A position that comes no later than another denotes an index that is no
/// greater.
pub proof fn lemma_offset_grows(text: Seq<char>, earlier: SourcePosition, later: SourcePosition)
    requires
        1 <= earlier.line,
        earlier.precedes(later),
    ensures
        offset_of(text, earlier) <= offset_of(text, later),
{
    lemma_offset_bounds(text, earlier);
    lemma_offset_bounds(text, later);
    lemma_line_start_bounds(text, earlier.line as nat);
    lemma_line_start_bounds(text, later.line as nat);
    lemma_line_end_bounds(text, line_start(text, earlier.line as nat));
    lemma_line_end_bounds(text, line_start(text, later.line as nat));
    if earlier.line < later.line {
        lemma_line_start_after(text, earlier.line as nat, later.line as nat);
    }
}

proof fn lemma_wrapped_from(text: Seq<char>, sections: Seq<MatchSpan>, cursor: int)
    requires
        follow_one_another(sections),
        0 <= cursor <= text.len(),
        sections.len() > 0 ==> cursor <= offset_of(text, sections[0].start),
    ensures
        spliced(text, insertions(sections), cursor) == wrapped(text, sections, cursor),
    decreases sections.len(),
{
    if sections.len() > 0 {
        let first = sections[0];
        let rest = sections.drop_first();
        let from = offset_of(text, first.start);
        let to = offset_of(text, first.end);
        lemma_offset_bounds(text, first.start);
        lemma_offset_bounds(text, first.end);
        lemma_offset_grows(text, first.start, first.end);
        assert(follow_one_another(rest)) by {
            assert forall|i: int| 0 <= i < rest.len() implies 1 <= (#[trigger] rest[i]).start.line
                && rest[i].start.precedes(rest[i].end) by {
                assert(rest[i] == sections[i + 1]);
            }
            assert forall|i: int| 0 <= i < rest.len() - 1 implies (#[trigger] rest[i]).end.precedes(
                rest[i + 1].start,
            ) by {
                assert(rest[i] == sections[i + 1]);
                assert(rest[i + 1] == sections[i + 2]);
            }
        }
        if rest.len() > 0 {
            assert(rest[0] == sections[1]);
            assert(sections[0].end.precedes(sections[0int + 1].start));
            if first.end.line >= 1 {
                lemma_offset_grows(text, first.end, rest[0].start);
            } else {
                assert(first.start.precedes(first.end));
            }
        }
        lemma_wrapped_from(text, rest, to);
        let points = insertions(sections);
        let close = Insertion { kind: InsertType::CommentEnd, at: first.end };
        assert(points.drop_first() == seq![close] + insertions(rest));
        assert(points.drop_first().drop_first() == insertions(rest));
        assert(spliced(text, points.drop_first(), from) == text.subrange(from, to) + marker_text(
            InsertType::CommentEnd,
        ) + spliced(text, insertions(rest), to));
        assert(spliced(text, points, cursor) == text.subrange(cursor, from) + marker_text(
            InsertType::CommentStart,
        ) + (text.subrange(from, to) + marker_text(InsertType::CommentEnd) + wrapped(
            text,
            rest,
            to,
        )));
    }
}

/// Where the spans follow one another in the text, each is wrapped where
/// it stands: its own text, and nothing else, lies between its two
/// markers.
pub proof fn lemma_each_section_wrapped(text: Seq<char>, sections: Seq<MatchSpan>)
    requires
        follow_one_another(sections),
    ensures
        commented(text, sections) == wrapped(text, sections, 0),
{
    if sections.len() > 0 {
        lemma_offset_bounds(text, sections[0].start);
    }
    lemma_wrapped_from(text, sections, 0);
}

/// The bytes of two texts joined are the bytes of the one, then those of
/// the other.
pub proof fn lemma_bytes_joined(before: Seq<char>, after: Seq<char>)
    ensures
        encode_utf8(before + after) == encode_utf8(before) + encode_utf8(after),
    decreases before.len(),
{
    if before.len() == 0 {
        assert(before + after == after);
    } else {
        assert((before + after).drop_first() == before.drop_first() + after);
        lemma_bytes_joined(before.drop_first(), after);
    }
}

/// The byte at which a text ends is a character boundary of every text
/// that goes on from it.
pub proof fn lemma_joined_on_char_boundary(before: Seq<char>, after: Seq<char>)
    ensures
        is_char_boundary(encode_utf8(before + after), encode_utf8(before).len() as int),
    decreases before.len(),
{
    let whole = before + after;
    vstd::utf8::encode_utf8_valid_utf8(whole);
    if before.len() > 0 {
        vstd::utf8::encode_utf8_first_scalar(whole);
        assert(whole.drop_first() == before.drop_first() + after);
        assert(vstd::utf8::pop_first_scalar(encode_utf8(whole)) == encode_utf8(whole.drop_first()));
        lemma_joined_on_char_boundary(before.drop_first(), after);
    }
}

/// The number of bytes that the first `column` characters of a line take
/// in UTF-8; those of the whole line where it has fewer characters.
pub open spec fn byte_offset_of(line: Seq<char>, column: nat) -> nat {
    if column < line.len() {
        encode_utf8(line.take(column as int)).len()
    } else {
        encode_utf8(line).len()
    }
}

/// The number of bytes that a character takes in UTF-8.
pub open spec fn byte_width(c: char) -> nat {
    let code = c as u32;
    if code < 0x80 {
        1
    } else if code < 0x800 {
        2
    } else if code < 0x10000 {
        3
    } else {
        4
    }
}

/// A character takes as many bytes as its code point asks for.
pub proof fn lemma_byte_width(c: char)
    ensures
        vstd::utf8::encode_scalar(c as u32).len() == byte_width(c),
{
    vstd::utf8::char_is_scalar(c);
}

/// The bytes of a text and one more character are longer by the width of
/// that character than the bytes of the text.
pub proof fn lemma_bytes_of_one_more(text: Seq<char>, c: char)
    ensures
        encode_utf8(text.push(c)).len() == encode_utf8(text).len() + byte_width(c),
{
    lemma_bytes_joined(text, seq![c]);
    lemma_byte_width(c);
    assert(text.push(c) == text + seq![c]);
    assert(seq![c].drop_first() == Seq::<char>::empty());
    assert(encode_utf8(seq![c]) == vstd::utf8::encode_scalar(c as u32) + encode_utf8(
        Seq::<char>::empty(),
    ));
}

/// Turns a column, counted in characters, into an offset in bytes: the
/// bytes that the characters before the column take. The offset never
/// falls inside a character.
pub fn byte_offset(line: &str, column: usize) -> (offset: usize)
    ensures
        offset == byte_offset_of(line@, column as nat),
        is_char_boundary(encode_utf8(line@), offset as int),
{
    let length = line.as_bytes().len();
    let mut chars = line.chars();
    let mut passed: usize = 0;
    let mut offset: usize = 0;
    assert(line@.take(0) == Seq::<char>::empty());
    loop
        invariant
            passed <= column,
            passed <= line@.len(),
            chars.remaining() == line@.skip(passed as int),
            offset == encode_utf8(line@.take(passed as int)).len(),
            length == encode_utf8(line@).len(),
        decreases line@.len() - passed,
    {
        proof {
            let before = line@.take(passed as int);
            lemma_bytes_joined(before, line@.skip(passed as int));
            lemma_joined_on_char_boundary(before, line@.skip(passed as int));
            assert(before + line@.skip(passed as int) == line@);
        }
        if passed == column {
            return offset;
        }
        match chars.next() {
            None => {
                assert(line@.take(passed as int) == line@);
                return offset;
            },
            Some(c) => {
                proof {
                    let before = line@.take(passed as int);
                    assert(line@.skip(passed as int).drop_first() == line@.skip(passed + 1));
                    assert(line@.take(passed + 1) == before.push(c));
                    lemma_bytes_of_one_more(before, c);
                    lemma_bytes_joined(before.push(c), line@.skip(passed + 1));
                    assert(before.push(c) + line@.skip(passed + 1) == line@);
                }
                offset = offset + utf8_width(c);
                passed = passed + 1;
            },
        }
    }
}

/// Where one span is wrapped, the opening marker starts at the byte at
/// which the text before the span ends. That byte is a character boundary
/// of the source and of the result, so no character is split, however many
/// bytes the characters before the span take.
pub proof fn lemma_marker_on_char_boundary(text: Seq<char>, section: MatchSpan)
    requires
        offset_of(text, section.start) <= offset_of(text, section.end),
    ensures
        ({
            let before = text.take(offset_of(text, section.start));
            let at = encode_utf8(before).len() as int;
            let marker = encode_utf8(marker_text(InsertType::CommentStart));
            let result = encode_utf8(commented(text, seq![section]));
            &&& is_char_boundary(encode_utf8(text), at)
            &&& is_char_boundary(result, at)
            &&& result.subrange(0, at) == encode_utf8(before)
            &&& result.subrange(at, at + marker.len()) == marker
        }),
{
    let from = offset_of(text, section.start);
    let to = offset_of(text, section.end);
    lemma_offset_bounds(text, section.start);
    lemma_offset_bounds(text, section.end);
    lemma_one_section_wrapped(text, section);
    let before = text.take(from);
    let open = marker_text(InsertType::CommentStart);
    let rest = text.subrange(from, to) + marker_text(InsertType::CommentEnd) + text.skip(to);
    assert(commented(text, seq![section]) == before + (open + rest));
    assert(text == before + text.skip(from));
    lemma_joined_on_char_boundary(before, text.skip(from));
    lemma_joined_on_char_boundary(before, open + rest);
    lemma_bytes_joined(before, open + rest);
    lemma_bytes_joined(open, rest);
    let result = encode_utf8(commented(text, seq![section]));
    let at = encode_utf8(before).len() as int;
    assert(result == encode_utf8(before) + (encode_utf8(open) + encode_utf8(rest)));
    assert(result.subrange(0, at) == encode_utf8(before));
    assert(result.subrange(at, at + encode_utf8(open).len()) == encode_utf8(open));
}

/// The position that the parser's model gives the character index `index`
/// denotes that index again: the line is one more than the line breaks
/// before the index, and the column counts the characters since the line
/// began.
pub proof fn lemma_position_of_index(text: Seq<char>, index: int, at: SourcePosition)
    requires
        0 <= index <= text.len(),
        at.line == line_breaks(text.take(index)) + 1,
        at.column == index - line_start(text, at.line as nat),
    ensures
        line_start(text, at.line as nat) <= index,
        offset_of(text, at) == index,
{
    lemma_line_of_index(text, index);
    let begun = line_start(text, at.line as nat);
    lemma_line_end_bounds(text, begun);
    assert(index <= line_end(text, begun));
}

/// The line that holds the character index `index` begins at or before it,
/// and no line break lies between the two.
proof fn lemma_line_of_index(text: Seq<char>, index: int)
    requires
        0 <= index <= text.len(),
    ensures
        0 <= line_start(text, line_breaks(text.take(index)) + 1) <= index,
        forall|j: int|
            line_start(text, line_breaks(text.take(index)) + 1) <= j < index ==> text[j] != '\n',
    decreases index,
{
    if index == 0 {
        assert(text.take(0).len() == 0);
    } else {
        lemma_line_of_index(text, index - 1);
        assert(text.take(index).drop_last() == text.take(index - 1));
        assert(text.take(index).last() == text[index - 1]);
        let line = line_breaks(text.take(index - 1)) + 1;
        let begun = line_start(text, line);
        if text[index - 1] == '\n' {
            lemma_line_end_bounds(text, begun);
            lemma_line_end_bounds(text, index - 1);
            assert(index - 1 <= line_end(text, begun));
            lemma_line_end_same_line(text, begun, index - 1);
            assert(line_end(text, begun) == index - 1);
            assert(line_start(text, line + 1) == index);
        }
    }
}

/// Decides `byte_width`.
pub fn utf8_width(c: char) -> (width: usize)
    ensures
        width == byte_width(c),
{
    let code = c as u32;
    if code < 0x80 {
        1
    } else if code < 0x800 {
        2
    } else if code < 0x10000 {
        3
    } else {
        4
    }
}

/// The part of a text between two characters, cut out at the bytes at
/// which those characters begin.
fn slice_between<'a>(
    text: &'a str,
    from: usize,
    to: usize,
    Ghost(first): Ghost<int>,
    Ghost(last): Ghost<int>,
) -> (part: &'a str)
    requires
        0 <= first <= last <= text@.len(),
        from == encode_utf8(text@.take(first)).len(),
        to == encode_utf8(text@.take(last)).len(),
    ensures
        part@ == text@.subrange(first, last),
{
    proof {
        let head = text@.take(last);
        lemma_bytes_joined(head, text@.skip(last));
        lemma_joined_on_char_boundary(head, text@.skip(last));
        assert(head + text@.skip(last) == text@);
        assert(encode_utf8(text@).subrange(0, to as int) == encode_utf8(head));
    }
    let head = text.split_at(to).0;
    proof {
        vstd::utf8::encode_utf8_decode_utf8(head@);
        vstd::utf8::encode_utf8_decode_utf8(text@.take(last));
        assert(head@ == text@.take(last));
        let before = text@.take(first);
        let between = text@.subrange(first, last);
        assert(before + between == head@);
        assert(head@.take(first) == before);
        lemma_bytes_joined(before, between);
        lemma_joined_on_char_boundary(before, between);
        assert(encode_utf8(head@).subrange(from as int, encode_utf8(head@).len() as int)
            == encode_utf8(between));
    }
    let part = head.split_at(from).1;
    proof {
        vstd::utf8::encode_utf8_decode_utf8(part@);
        vstd::utf8::encode_utf8_decode_utf8(text@.subrange(first, last));
    }
    part
}

/// Whether a scan has done its part so far: what it has written, the
/// text it has passed but not yet written, and the rest of the text with
/// the markers still to be placed make up the whole result.
spec fn on_course(
    text: Seq<char>,
    sections: Seq<MatchSpan>,
    written: Seq<char>,
    kept: int,
    index: int,
    done: int,
    closing: bool,
) -> bool {
    written + text.subrange(kept, index) + spliced(text, pending(sections, done, closing), index)
        == commented(text, sections)
}

/// The marker that is placed next.
spec fn marker_due(sections: Seq<MatchSpan>, done: int, closing: bool) -> Insertion {
    if closing {
        Insertion { kind: InsertType::CommentEnd, at: sections[done].end }
    } else {
        Insertion { kind: InsertType::CommentStart, at: sections[done].start }
    }
}

proof fn lemma_scan_begins(text: Seq<char>, sections: Seq<MatchSpan>)
    ensures
        on_course(text, sections, Seq::empty(), 0, 0, 0, false),
{
    assert(sections.skip(0) == sections);
    assert(text.subrange(0, 0) == Seq::<char>::empty());
    assert(Seq::<char>::empty() + text.subrange(0, 0) + commented(text, sections) == commented(
        text,
        sections,
    ));
}

proof fn lemma_scan_places_marker(
    text: Seq<char>,
    sections: Seq<MatchSpan>,
    written: Seq<char>,
    kept: int,
    index: int,
    done: int,
    closing: bool,
)
    requires
        on_course(text, sections, written, kept, index, done, closing),
        0 <= kept <= index <= text.len(),
        0 <= done < sections.len(),
        offset_of(text, marker_due(sections, done, closing).at) <= index,
    ensures
        on_course(
            text,
            sections,
            written + text.subrange(kept, index) + marker_text(
                marker_due(sections, done, closing).kind,
            ),
            index,
            index,
            if closing {
                done + 1
            } else {
                done
            },
            !closing,
        ),
{
    let rest = pending(sections, done, closing);
    if !closing {
        lemma_pending_unfold(sections, done);
    }
    let next = if closing {
        pending(sections, done + 1, false)
    } else {
        pending(sections, done, true)
    };
    let marker = marker_text(marker_due(sections, done, closing).kind);
    assert(rest[0] == marker_due(sections, done, closing));
    assert(rest.drop_first() == next);
    assert(text.subrange(index, index) == Seq::<char>::empty());
    assert(spliced(text, rest, index) == text.subrange(index, index) + marker + spliced(
        text,
        next,
        index,
    ));
    assert(written + text.subrange(kept, index) + marker + text.subrange(index, index) + spliced(
        text,
        next,
        index,
    ) == written + text.subrange(kept, index) + (text.subrange(index, index) + marker + spliced(
        text,
        next,
        index,
    )));
}

proof fn lemma_scan_passes_char(
    text: Seq<char>,
    sections: Seq<MatchSpan>,
    written: Seq<char>,
    kept: int,
    index: int,
    done: int,
    closing: bool,
)
    requires
        on_course(text, sections, written, kept, index, done, closing),
        0 <= kept <= index < text.len(),
        0 <= done <= sections.len(),
        closing ==> done < sections.len(),
        done < sections.len() ==> offset_of(text, marker_due(sections, done, closing).at) > index,
    ensures
        on_course(text, sections, written, kept, index + 1, done, closing),
{
    let rest = pending(sections, done, closing);
    let c = text[index];
    let before = written + text.subrange(kept, index);
    assert(written + text.subrange(kept, index + 1) == before + seq![c]);
    if done < sections.len() {
        if !closing {
            lemma_pending_unfold(sections, done);
        }
        assert(rest[0] == marker_due(sections, done, closing));
        let place = offset_of(text, rest[0].at);
        lemma_offset_bounds(text, rest[0].at);
        let marker = marker_text(rest[0].kind);
        let after = spliced(text, rest.drop_first(), place);
        assert(spliced(text, rest, index) == text.subrange(index, place) + marker + after);
        assert(spliced(text, rest, index + 1) == text.subrange(index + 1, place) + marker + after);
        assert(text.subrange(index, place) == seq![c] + text.subrange(index + 1, place));
        assert(before + seq![c] + (text.subrange(index + 1, place) + marker + after) == before + (
        seq![c] + text.subrange(index + 1, place) + marker + after));
    } else {
        assert(sections.skip(done) == Seq::<MatchSpan>::empty());
        assert(rest == Seq::<Insertion>::empty());
        assert(spliced(text, rest, index) == text.skip(index));
        assert(spliced(text, rest, index + 1) == text.skip(index + 1));
        assert(text.skip(index) == seq![c] + text.skip(index + 1));
        assert(before + seq![c] + text.skip(index + 1) == before + (seq![c] + text.skip(index + 1)));
    }
}

proof fn lemma_scan_ends(
    text: Seq<char>,
    sections: Seq<MatchSpan>,
    written: Seq<char>,
    kept: int,
)
    requires
        on_course(text, sections, written, kept, text.len() as int, sections.len() as int, false),
        0 <= kept <= text.len(),
    ensures
        written + text.subrange(kept, text.len() as int) == commented(text, sections),
{
    assert(sections.skip(sections.len() as int) == Seq::<MatchSpan>::empty());
    assert(text.skip(text.len() as int) == Seq::<char>::empty());
    assert(written + text.subrange(kept, text.len() as int) + Seq::<char>::empty() == written
        + text.subrange(kept, text.len() as int));
}

/// Passing one character moves the scan on by the character's bytes, and
/// to the start of the next line where the character is a line break.
proof fn lemma_scan_moves(text: Seq<char>, index: int, begun: int, line: nat)
    requires
        0 <= begun <= index < text.len(),
        1 <= line,
        line_start(text, line) == begun,
        forall|j: int| begun <= j < index ==> text[j] != '\n',
    ensures
        encode_utf8(text.take(index + 1)).len() == encode_utf8(text.take(index)).len() + byte_width(
            text[index],
        ),
        encode_utf8(text.take(index + 1)).len() <= encode_utf8(text).len(),
        index + 1 <= encode_utf8(text.take(index + 1)).len(),
        text[index] == '\n' ==> line_start(text, line + 1) == index + 1,
{
    lemma_bytes_of_one_more(text.take(index), text[index]);
    assert(text.take(index + 1) == text.take(index).push(text[index]));
    lemma_bytes_joined(text.take(index + 1), text.skip(index + 1));
    assert(text.take(index + 1) + text.skip(index + 1) == text);
    lemma_bytes_no_fewer(text.take(index + 1));
    if text[index] == '\n' {
        lemma_line_end_bounds(text, begun);
        lemma_line_end_bounds(text, index);
        lemma_line_end_same_line(text, begun, index);
    }
}

/// A text takes at least a byte for each character.
pub proof fn lemma_bytes_no_fewer(text: Seq<char>)
    ensures
        text.len() <= encode_utf8(text).len(),
    decreases text.len(),
{
    if text.len() > 0 {
        lemma_bytes_no_fewer(text.drop_last());
        lemma_bytes_of_one_more(text.drop_last(), text.last());
        assert(text.drop_last().push(text.last()) == text);
    }
}

/// Wraps each span of `sections` in comment markers: the opening marker goes
/// right before the span's start and the closing marker right after its end.
/// Every character of `source` is kept, in order, line breaks included.
///
/// The text is scanned once. Positions are followed in characters and the
/// text is cut in bytes, at the byte at which the character at the cut
/// begins.
pub fn insert_comments(source: &str, sections: &Vec<MatchSpan>) -> (result: String)
    ensures
        result@ == commented(source@, sections@),
{
    let ghost text = source@;
    let length = source.as_bytes().len();
    let mut result = String::new();
    let mut chars = source.chars();
    let mut ahead = chars.next();
    let mut line: usize = 0;
    let mut column: usize = 0;
    let mut offset: usize = 0;
    let mut copied: usize = 0;
    let mut done: usize = 0;
    let mut closing = false;
    let ghost mut index: int = 0;
    let ghost mut kept: int = 0;
    let ghost mut begun: int = 0;
    proof {
        lemma_scan_begins(text, sections@);
        assert(text.take(0) == Seq::<char>::empty());
        assert(text.len() > 0 ==> text.drop_first() == text.skip(1));
    }
    while ahead.is_some() || done < sections.len()
        invariant
            text == source@,
            length == encode_utf8(text).len(),
            0 <= kept <= index <= text.len(),
            0 <= begun <= index,
            copied == encode_utf8(text.take(kept)).len(),
            offset == encode_utf8(text.take(index)).len(),
            index <= offset <= length,
            line <= index,
            column == index - begun,
            line_start(text, (line + 1) as nat) == begun,
            forall|j: int| begun <= j < index ==> text[j] != '\n',
            done <= sections.len(),
            closing ==> done < sections.len(),
            index < text.len() ==> ahead == Some(text[index]) && chars.remaining() == text.skip(
                index + 1,
            ),
            index == text.len() ==> ahead is None,
            on_course(text, sections@, result@, kept, index, done as int, closing),
        decreases (text.len() - index) + 2 * (sections.len() - done) - (if closing { 1int } else { 0 }),
    {
        let mut due = false;
        if done < sections.len() {
            let at = if closing {
                sections[done].end
            } else {
                sections[done].start
            };
            proof {
                lemma_reached(text, index, begun, (line + 1) as nat, at);
            }
            let at_line = if at.line == 0 {
                0
            } else {
                at.line - 1
            };
            due = ahead.is_none() || at_line < line || (at_line == line && (at.column <= column
                || ahead == Some('\n')));
            assert(named_line(at) == at_line + 1);
            assert(due <==> offset_of(text, at) <= index);
        }
        if due {
            proof {
                lemma_scan_places_marker(text, sections@, result@, kept, index, done as int, closing);
            }
            result.append(slice_between(source, copied, offset, Ghost(kept), Ghost(index)));
            if closing {
                result.append(" */");
                closing = false;
                done = done + 1;
            } else {
                result.append("/* cleaned by clippy_lint_tester ");
                closing = true;
            }
            copied = offset;
            proof {
                kept = index;
            }
        } else {
            let c = ahead.unwrap();
            proof {
                lemma_scan_passes_char(text, sections@, result@, kept, index, done as int, closing);
                lemma_scan_moves(text, index, begun, (line + 1) as nat);
                assert(index + 1 < text.len() ==> text.skip(index + 1).drop_first() == text.skip(
                    index + 2,
                ) && text.skip(index + 1)[0] == text[index + 1]);
            }
            offset = offset + utf8_width(c);
            ahead = chars.next();
            if c == '\n' {
                line = line + 1;
                column = 0;
                proof {
                    begun = index + 1;
                }
            } else {
                column = column + 1;
            }
            proof {
                index = index + 1;
            }
        }
    }
    proof {
        lemma_scan_ends(text, sections@, result@, kept);
    }
    result.append(slice_between(source, copied, offset, Ghost(kept), Ghost(index)));
    result
}

} // verus!
