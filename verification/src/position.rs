//! Positions and spans in source text, as the parser reports them.

use vstd::prelude::*;

verus! {

/// A place in source text: a line counted from 1 and a column counted in
/// characters from 0.
#[derive(Clone, Copy, Debug, PartialEq, Eq, Structural)]
pub struct SourcePosition {
    pub line: usize,
    pub column: usize,
}

/// The half-open stretch of text that one attribute occupies.
#[derive(Clone, Copy, Debug, PartialEq, Eq, Structural)]
pub struct MatchSpan {
    pub start: SourcePosition,
    pub end: SourcePosition,
}

impl SourcePosition {
    /// Whether `self` comes no later than `other`: on an earlier line, or on
    /// the same line at no greater column.
    pub open spec fn precedes(self, other: SourcePosition) -> bool {
        self.line < other.line || (self.line == other.line && self.column <= other.column)
    }

    /// Decides `precedes`.
    pub fn is_at_or_before(&self, other: &SourcePosition) -> (r: bool)
        ensures
            r == self.precedes(*other),
    {
        self.line < other.line || (self.line == other.line && self.column <= other.column)
    }
}

/// Index of the first line break at or after `from`, or the length of the
/// text when no line break follows.
pub open spec fn line_end(text: Seq<char>, from: int) -> int
    decreases text.len() - from,
{
    if from < 0 || from >= text.len() {
        text.len() as int
    } else if text[from] == '\n' {
        from
    } else {
        line_end(text, from + 1)
    }
}

/// Index at which the line numbered `line` begins. Lines are separated by
/// line breaks alone; a line past the last one begins at the end of the text.
pub open spec fn line_start(text: Seq<char>, line: nat) -> int
    decreases line,
{
    if line <= 1 {
        0
    } else {
        let end = line_end(text, line_start(text, (line - 1) as nat));
        if end < text.len() {
            end + 1
        } else {
            text.len() as int
        }
    }
}

/// The character index that a position denotes in `text`. A column past the
/// end of its line denotes the end of that line, and a line past the last
/// one denotes the end of the text.
pub open spec fn offset_of(text: Seq<char>, at: SourcePosition) -> int {
    let start = line_start(text, at.line as nat);
    let end = line_end(text, start);
    if start + at.column <= end {
        start + at.column
    } else {
        end
    }
}

/// A line ends no earlier than the index it is searched from, and inside
/// the text.
pub proof fn lemma_line_end_bounds(text: Seq<char>, from: int)
    requires
        0 <= from <= text.len(),
    ensures
        from <= line_end(text, from) <= text.len(),
        line_end(text, from) < text.len() ==> text[line_end(text, from)] == '\n',
        forall|j: int| from <= j < line_end(text, from) ==> text[j] != '\n',
    decreases text.len() - from,
{
    if from < text.len() && text[from] != '\n' {
        lemma_line_end_bounds(text, from + 1);
    }
}

/// Every index between the start of a search and the line break it finds
/// leads to that same line break.
pub proof fn lemma_line_end_same_line(text: Seq<char>, from: int, mid: int)
    requires
        0 <= from <= mid <= line_end(text, from),
    ensures
        line_end(text, mid) == line_end(text, from),
    decreases mid - from,
{
    lemma_line_end_bounds(text, from);
    if from < mid {
        lemma_line_end_same_line(text, from + 1, mid);
    }
}

/// Every line begins inside the text.
pub proof fn lemma_line_start_bounds(text: Seq<char>, line: nat)
    ensures
        0 <= line_start(text, line) <= text.len(),
    decreases line,
{
    if line > 1 {
        lemma_line_start_bounds(text, (line - 1) as nat);
        lemma_line_end_bounds(text, line_start(text, (line - 1) as nat));
    }
}

/// A later line begins no earlier than where an earlier line ends, and
/// strictly after it when the earlier line ends in a line break.
pub proof fn lemma_line_start_after(text: Seq<char>, earlier: nat, later: nat)
    requires
        1 <= earlier < later,
    ensures
        line_end(text, line_start(text, earlier)) <= line_start(text, later),
        line_end(text, line_start(text, earlier)) < text.len() ==> line_end(
            text,
            line_start(text, earlier),
        ) < line_start(text, later),
    decreases later,
{
    lemma_line_start_bounds(text, earlier);
    lemma_line_end_bounds(text, line_start(text, earlier));
    if later > earlier + 1 {
        let before = (later - 1) as nat;
        lemma_line_start_after(text, earlier, before);
        lemma_line_start_bounds(text, before);
        lemma_line_end_bounds(text, line_start(text, before));
    }
}

/// A position denotes an index inside the text.
pub proof fn lemma_offset_bounds(text: Seq<char>, at: SourcePosition)
    ensures
        0 <= offset_of(text, at) <= text.len(),
{
    lemma_line_start_bounds(text, at.line as nat);
    lemma_line_end_bounds(text, line_start(text, at.line as nat));
}

} // verus!
