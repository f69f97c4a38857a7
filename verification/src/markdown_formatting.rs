//! Two-column tables in Markdown.

use vstd::prelude::*;
use vstd::string::StrSliceExecFns;
use vstd::string::StringExecFns;
use crate::text::{decimal, lemma_decimal_len, lemma_digit_count_bound, push_char, push_decimal, push_repeated, repeated};
use crate::progress_bar::num_digits;

verus! {

/// The side of its column that a cell keeps to.
#[derive(Clone, Copy, Debug, PartialEq, Eq, Structural)]
pub enum Alignment {
    Left,
    Center,
    Right,
}

/// The number of extended grapheme clusters in a text, as the Unicode
/// segmentation rules count them.
pub uninterp spec fn grapheme_clusters(text: Seq<char>) -> nat;

/// Counts what `UnicodeSegmentation::graphemes` yields for `text` with
/// extended clusters. The contract claims only that the count is a function
/// of the text.
#[verifier::external_body]
fn count_graphemes(text: &str) -> (count: usize)
    ensures
        count == grapheme_clusters(text@),
{
    unicode_segmentation::UnicodeSegmentation::graphemes(text, true).count()
}

/// A value that can stand in a table cell.
pub trait TableDisplay {
    /// The text of the value.
    spec fn shown(&self) -> Seq<char>;

    /// The columns that the value is reckoned to take.
    spec fn width(&self) -> nat;

    /// The side that values of this type keep to.
    spec fn aligned() -> Alignment;

    /// Writes the value out.
    fn text(&self) -> (text: String)
        ensures
            text@ == self.shown(),
    ;

    /// The columns that the value is reckoned to take.
    fn display_width(&self) -> (width: usize)
        ensures
            width == self.width(),
    ;

    /// The side that values of this type keep to.
    fn alignment() -> (side: Alignment)
        ensures
            side == Self::aligned(),
    ;
}

impl<'a> TableDisplay for &'a str {
    open spec fn shown(&self) -> Seq<char> {
        self@
    }

    open spec fn width(&self) -> nat {
        grapheme_clusters(self@)
    }

    open spec fn aligned() -> Alignment {
        Alignment::Left
    }

    fn text(&self) -> (text: String) {
        String::from_str(self)
    }

    fn display_width(&self) -> (width: usize) {
        count_graphemes(self)
    }

    fn alignment() -> (side: Alignment) {
        Alignment::Left
    }
}

impl TableDisplay for String {
    open spec fn shown(&self) -> Seq<char> {
        self@
    }

    open spec fn width(&self) -> nat {
        grapheme_clusters(self@)
    }

    open spec fn aligned() -> Alignment {
        Alignment::Left
    }

    fn text(&self) -> (text: String) {
        self.clone()
    }

    fn display_width(&self) -> (width: usize) {
        count_graphemes(self.as_str())
    }

    fn alignment() -> (side: Alignment) {
        Alignment::Left
    }
}

/// The columns a number is reckoned to take: its digits, and one more for
/// every full group of three digits before the last.
pub open spec fn number_width(value: nat) -> nat {
    let digits = decimal(value).len();
    digits + ((digits - 1) / 3) as nat
}

impl TableDisplay for usize {
    open spec fn shown(&self) -> Seq<char> {
        decimal(*self as nat)
    }

    open spec fn width(&self) -> nat {
        number_width(*self as nat)
    }

    open spec fn aligned() -> Alignment {
        Alignment::Right
    }

    fn text(&self) -> (text: String) {
        let mut text = String::new();
        push_decimal(&mut text, *self);
        assert(Seq::<char>::empty() + decimal(*self as nat) == decimal(*self as nat));
        text
    }

    fn display_width(&self) -> (width: usize) {
        proof {
            lemma_decimal_len(*self as nat);
            lemma_digit_count_bound(*self as nat);
        }
        let digits = if *self == 0 {
            1
        } else {
            num_digits(*self)
        };
        digits + (digits - 1) / 3
    }

    fn alignment() -> (side: Alignment) {
        Alignment::Right
    }
}

impl<T: TableDisplay> TableDisplay for &T {
    open spec fn shown(&self) -> Seq<char> {
        (**self).shown()
    }

    open spec fn width(&self) -> nat {
        (**self).width()
    }

    open spec fn aligned() -> Alignment {
        T::aligned()
    }

    fn text(&self) -> (text: String) {
        (**self).text()
    }

    fn display_width(&self) -> (width: usize) {
        (**self).display_width()
    }

    fn alignment() -> (side: Alignment) {
        T::alignment()
    }
}

/// The blanks that bring `text` up to `width` characters.
pub open spec fn padding(text: Seq<char>, width: nat) -> nat {
    if text.len() < width {
        (width - text.len()) as nat
    } else {
        0
    }
}

/// `text` brought up to `width` characters with blanks on the side away
/// from the one it keeps to; centred text gets the odd blank behind it.
pub open spec fn aligned_text(text: Seq<char>, width: nat, side: Alignment) -> Seq<char> {
    let blanks = padding(text, width);
    match side {
        Alignment::Left => text + repeated(' ', blanks),
        Alignment::Center => repeated(' ', blanks / 2) + text + repeated(
            ' ',
            (blanks - blanks / 2) as nat,
        ),
        Alignment::Right => repeated(' ', blanks) + text,
    }
}

/// The rule under a header: dashes, with a colon on each side that the
/// column keeps to.
pub open spec fn rule_text(width: nat, side: Alignment) -> Seq<char> {
    match side {
        Alignment::Left => seq![':'] + repeated('-', width + 1),
        Alignment::Center => seq![':'] + repeated('-', (width - 1) as nat) + seq![':'],
        Alignment::Right => repeated('-', width + 1) + seq![':'],
    }
}

/// The width of the first column: that of the widest among the header and
/// the first cells.
pub open spec fn first_width<A: TableDisplay, B: TableDisplay>(
    header: nat,
    data: Seq<(A, B)>,
) -> nat
    decreases data.len(),
{
    if data.len() == 0 {
        header
    } else {
        let before = first_width(header, data.drop_last());
        if before < data.last().0.width() {
            data.last().0.width()
        } else {
            before
        }
    }
}

/// The width of the second column.
pub open spec fn second_width<A: TableDisplay, B: TableDisplay>(
    header: nat,
    data: Seq<(A, B)>,
) -> nat
    decreases data.len(),
{
    if data.len() == 0 {
        header
    } else {
        let before = second_width(header, data.drop_last());
        if before < data.last().1.width() {
            data.last().1.width()
        } else {
            before
        }
    }
}

/// One line of the table: the two cells, each in its column.
pub open spec fn row_text(
    first: Seq<char>,
    second: Seq<char>,
    widths: (nat, nat),
    sides: (Alignment, Alignment),
) -> Seq<char> {
    seq![' '] + aligned_text(first, widths.0, sides.0) + " | "@ + aligned_text(
        second,
        widths.1,
        sides.1,
    ) + seq![' ', '\n']
}

/// The lines of the table for `data`, one after the other.
pub open spec fn rows_text<A: TableDisplay, B: TableDisplay>(
    data: Seq<(A, B)>,
    widths: (nat, nat),
) -> Seq<char>
    decreases data.len(),
{
    if data.len() == 0 {
        Seq::empty()
    } else {
        rows_text(data.drop_last(), widths) + row_text(
            data.last().0.shown(),
            data.last().1.shown(),
            widths,
            (A::aligned(), B::aligned()),
        )
    }
}

/// The whole table: the headers, the rule, and a line for each pair, with
/// each column as wide as its widest entry.
pub open spec fn table_text<A: TableDisplay, B: TableDisplay>(
    headers: (Seq<char>, Seq<char>),
    data: Seq<(A, B)>,
) -> Seq<char> {
    let widths = table_widths(headers, data);
    row_text(headers.0, headers.1, widths, (A::aligned(), B::aligned())) + rule_text(
        widths.0,
        A::aligned(),
    ) + seq!['|'] + rule_text(
        widths.1,
        B::aligned(),
    ) + seq!['\n'] + rows_text(data, widths)
}

/// Appends `shown` in a column of `width` characters.
pub fn push_aligned(text: &mut String, shown: &str, width: usize, side: Alignment)
    ensures
        final(text)@ == old(text)@ + aligned_text(shown@, width as nat, side),
{
    let length = shown.unicode_len();
    let blanks = if length < width {
        width - length
    } else {
        0
    };
    match side {
        Alignment::Left => {
            text.append(shown);
            push_repeated(text, ' ', blanks);
        },
        Alignment::Center => {
            push_repeated(text, ' ', blanks / 2);
            text.append(shown);
            push_repeated(text, ' ', blanks - blanks / 2);
        },
        Alignment::Right => {
            push_repeated(text, ' ', blanks);
            text.append(shown);
        },
    }
    assert(text@ == old(text)@ + aligned_text(shown@, width as nat, side));
}

/// Appends the rule for a column of `width` characters.
pub fn push_rule(text: &mut String, width: usize, side: Alignment)
    requires
        side is Center ==> width >= 1,
    ensures
        final(text)@ == old(text)@ + rule_text(width as nat, side),
{
    match side {
        Alignment::Left => {
            push_char(text, ':');
            push_repeated(text, '-', width);
            push_char(text, '-');
            assert(repeated('-', width as nat).push('-') == repeated('-', (width + 1) as nat));
        },
        Alignment::Center => {
            push_char(text, ':');
            push_repeated(text, '-', width - 1);
            push_char(text, ':');
        },
        Alignment::Right => {
            push_repeated(text, '-', width);
            push_char(text, '-');
            push_char(text, ':');
            assert(repeated('-', width as nat).push('-') == repeated('-', (width + 1) as nat));
        },
    }
    assert(text@ == old(text)@ + rule_text(width as nat, side));
}

/// Appends one line of the table.
pub fn push_row(
    text: &mut String,
    first: &str,
    second: &str,
    widths: (usize, usize),
    sides: (Alignment, Alignment),
)
    ensures
        final(text)@ == old(text)@ + row_text(
            first@,
            second@,
            (widths.0 as nat, widths.1 as nat),
            sides,
        ),
{
    push_char(text, ' ');
    push_aligned(text, first, widths.0, sides.0);
    text.append(" | ");
    push_aligned(text, second, widths.1, sides.1);
    push_char(text, ' ');
    push_char(text, '\n');
    assert(text@ == old(text)@ + row_text(
        first@,
        second@,
        (widths.0 as nat, widths.1 as nat),
        sides,
    ));
}

/// The widths of the two columns of a table.
pub open spec fn table_widths<A: TableDisplay, B: TableDisplay>(
    headers: (Seq<char>, Seq<char>),
    data: Seq<(A, B)>,
) -> (nat, nat) {
    (
        first_width(grapheme_clusters(headers.0), data),
        second_width(grapheme_clusters(headers.1), data),
    )
}

/// Whether the rule under the headers can be drawn: a centred column must
/// be at least one character wide.
pub open spec fn rule_fits<A: TableDisplay, B: TableDisplay>(widths: (nat, nat)) -> bool {
    &&& A::aligned() is Center ==> widths.0 >= 1
    &&& B::aligned() is Center ==> widths.1 >= 1
}

/// Measures the two columns of a table.
pub fn column_widths<A: TableDisplay, B: TableDisplay>(headers: [&str; 2], data: &Vec<(A, B)>) -> (widths:
    (usize, usize))
    ensures
        (widths.0 as nat, widths.1 as nat) == table_widths((headers[0]@, headers[1]@), data@),
{
    let mut first = count_graphemes(headers[0]);
    let mut second = count_graphemes(headers[1]);
    let ghost header_widths = (first as nat, second as nat);
    let mut index: usize = 0;
    while index < data.len()
        invariant
            index <= data.len(),
            first == first_width(header_widths.0, data@.take(index as int)),
            second == second_width(header_widths.1, data@.take(index as int)),
        decreases data.len() - index,
    {
        proof {
            let upto = data@.take(index + 1);
            assert(upto.drop_last() == data@.take(index as int));
            assert(upto.last() == data@[index as int]);
        }
        let a = data[index].0.display_width();
        let b = data[index].1.display_width();
        if first < a {
            first = a;
        }
        if second < b {
            second = b;
        }
        index = index + 1;
    }
    assert(data@.take(index as int) == data@);
    (first, second)
}

/// Writes `data` as a Markdown table under `headers`, or returns `None`
/// where a centred column would be less than one character wide.
pub fn try_print_table<A: TableDisplay, B: TableDisplay>(
    headers: [&str; 2],
    data: &Vec<(A, B)>,
) -> (table: Option<String>)
    ensures
        match table {
            Some(text) => rule_fits::<A, B>(table_widths((headers[0]@, headers[1]@), data@))
                && text@ == table_text((headers[0]@, headers[1]@), data@),
            None => !rule_fits::<A, B>(table_widths((headers[0]@, headers[1]@), data@)),
        },
{
    let widths = column_widths(headers, data);
    let first_fits = match A::alignment() {
        Alignment::Center => widths.0 >= 1,
        _ => true,
    };
    let second_fits = match B::alignment() {
        Alignment::Center => widths.1 >= 1,
        _ => true,
    };
    if first_fits && second_fits {
        Some(print_table(headers, data))
    } else {
        None
    }
}

/// Writes `data` as a Markdown table under `headers`. A centred column
/// must be at least one character wide.
pub fn print_table<A: TableDisplay, B: TableDisplay>(headers: [&str; 2], data: &Vec<(A, B)>) -> (table:
    String)
    requires
        rule_fits::<A, B>(table_widths((headers[0]@, headers[1]@), data@)),
    ensures
        table@ == table_text((headers[0]@, headers[1]@), data@),
{
    let (first, second) = column_widths(headers, data);
    let sides = (A::alignment(), B::alignment());
    let ghost widths = (first as nat, second as nat);

    let mut table = String::new();
    push_row(&mut table, headers[0], headers[1], (first, second), sides);
    push_rule(&mut table, first, sides.0);
    push_char(&mut table, '|');
    push_rule(&mut table, second, sides.1);
    push_char(&mut table, '\n');
    let ghost head = table@;
    assert(head == row_text(headers[0]@, headers[1]@, widths, sides) + rule_text(widths.0, sides.0)
        + seq!['|'] + rule_text(widths.1, sides.1) + seq!['\n']);
    let mut line: usize = 0;
    assert(head + rows_text(data@.take(0), widths) == head);
    while line < data.len()
        invariant
            line <= data.len(),
            sides == (A::aligned(), B::aligned()),
            widths == (first as nat, second as nat),
            table@ == head + rows_text(data@.take(line as int), widths),
        decreases data.len() - line,
    {
        proof {
            let upto = data@.take(line + 1);
            assert(upto.drop_last() == data@.take(line as int));
            assert(upto.last() == data@[line as int]);
        }
        let a = data[line].0.text();
        let b = data[line].1.text();
        push_row(&mut table, a.as_str(), b.as_str(), (first, second), sides);
        line = line + 1;
    }
    assert(data@.take(line as int) == data@);
    table
}

} // verus!
