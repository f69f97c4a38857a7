use clippy_lint_tester::editor::{byte_offset, insert_comments};
use clippy_lint_tester::position::{MatchSpan, SourcePosition};

fn span(start: (usize, usize), end: (usize, usize)) -> MatchSpan {
    MatchSpan {
        start: SourcePosition { line: start.0, column: start.1 },
        end: SourcePosition { line: end.0, column: end.1 },
    }
}

const OPEN: &str = "/* cleaned by clippy_lint_tester ";
const CLOSE: &str = " */";

#[test]
fn no_spans_reproduce_the_text() {
    for text in ["", "a", "a\n", "a\r\nb\n\n", "é√\n\tx", "\n\n\n"] {
        assert_eq!(insert_comments(text, &vec![]), text);
    }
}

#[test]
fn one_span_is_wrapped() {
    let result = insert_comments("ab\ncdef\ngh\n", &vec![span((2, 1), (2, 3))]);
    assert_eq!(result, format!("ab\nc{}de{}f\ngh\n", OPEN, CLOSE));
}

#[test]
fn two_spans_on_one_line() {
    let result = insert_comments("0123456789", &vec![span((1, 1), (1, 3)), span((1, 5), (1, 9))]);
    assert_eq!(result, format!("0{}12{}34{}5678{}9", OPEN, CLOSE, OPEN, CLOSE));
}

#[test]
fn adjacent_and_empty_spans() {
    let result = insert_comments("abcd", &vec![span((1, 1), (1, 2)), span((1, 2), (1, 2))]);
    assert_eq!(result, format!("a{}b{}{}{}cd", OPEN, CLOSE, OPEN, CLOSE));
}

#[test]
fn span_over_several_lines() {
    let result = insert_comments("x\n#[a(\n  b\n)]\ny", &vec![span((2, 0), (4, 2))]);
    assert_eq!(result, format!("x\n{}#[a(\n  b\n)]{}\ny", OPEN, CLOSE));
}

#[test]
fn columns_count_characters_not_bytes() {
    let result = insert_comments("éé√ab\n", &vec![span((1, 3), (1, 4))]);
    assert_eq!(result, format!("éé√{}a{}b\n", OPEN, CLOSE));
}

#[test]
fn a_column_past_the_line_is_the_end_of_the_line() {
    let result = insert_comments("ab\ncd\n", &vec![span((1, 1), (1, 50))]);
    assert_eq!(result, format!("a{}b{}\ncd\n", OPEN, CLOSE));
}

#[test]
fn a_line_past_the_text_is_the_end_of_the_text() {
    let result = insert_comments("ab\ncd", &vec![span((2, 1), (9, 0))]);
    assert_eq!(result, format!("ab\nc{}d{}", OPEN, CLOSE));
    let empty = insert_comments("", &vec![span((1, 0), (1, 0))]);
    assert_eq!(empty, format!("{}{}", OPEN, CLOSE));
}

#[test]
fn a_span_at_the_end_of_the_text() {
    let result = insert_comments("ab\n", &vec![span((2, 0), (2, 0))]);
    assert_eq!(result, format!("ab\n{}{}", OPEN, CLOSE));
}

#[test]
fn a_marker_never_goes_before_the_one_placed_before_it() {
    let result = insert_comments("abcdef", &vec![span((1, 4), (1, 2))]);
    assert_eq!(result, format!("abcd{}{}ef", OPEN, CLOSE));
}

#[test]
fn line_breaks_are_kept() {
    let text = "a\nbb\n\nccc\n";
    let result = insert_comments(text, &vec![span((1, 0), (2, 1)), span((4, 0), (4, 3))]);
    assert_eq!(result.matches('\n').count(), text.matches('\n').count());
    assert_eq!(result.chars().count(), text.chars().count() + 2 * 36);
}

#[test]
fn columns_are_turned_into_byte_offsets() {
    assert_eq!(byte_offset("abc", 0), 0);
    assert_eq!(byte_offset("abc", 2), 2);
    assert_eq!(byte_offset("abc", 3), 3);
    assert_eq!(byte_offset("abc", 9), 3);
    assert_eq!(byte_offset("", 0), 0);
    assert_eq!(byte_offset("", 4), 0);
    let line = "aé√\u{1F600}#[x]";
    assert_eq!(byte_offset(line, 1), 1);
    assert_eq!(byte_offset(line, 2), 3);
    assert_eq!(byte_offset(line, 3), 6);
    assert_eq!(byte_offset(line, 4), 10);
    assert_eq!(&line[byte_offset(line, 4)..], "#[x]");
    for column in 0..12 {
        assert!(line.is_char_boundary(byte_offset(line, column)));
    }
}

#[test]
fn a_marker_goes_at_the_byte_offset_of_its_column() {
    let line = "é√ #[allow(x)] fn f() {}";
    let result = insert_comments(line, &vec![span((1, 3), (1, 14))]);
    let start = byte_offset(line, 3);
    assert_eq!(&result[..start], &line[..start]);
    assert!(result[start..].starts_with(OPEN));
    assert!(result[start + OPEN.len()..].starts_with("#[allow(x)] */ fn f() {}"));
}
