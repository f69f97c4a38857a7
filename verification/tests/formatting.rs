use clippy_lint_tester::markdown_formatting::{
    column_widths, print_table, push_aligned, push_row, push_rule, try_print_table, Alignment,
    TableDisplay,
};
use clippy_lint_tester::progress_bar::{
    cut_message, estimate, num_digits, OutputStream, Printed, ProgressBar, ProgressBarDisplay,
    ProgressBarState, WIDTH,
};
use clippy_lint_tester::text::{at_or_before, comes_before, same_text};

#[test]
fn print_single_column() {
    let data: Vec<(&str, usize)> = vec![("a", 1), ("bb", 22), ("ccc", 333)];
    let s = print_table(["A", "B"], &data);
    assert_eq!(s, " A   |   B \n:----|----:\n a   |   1 \n bb  |  22 \n ccc | 333 \n");
}

#[test]
fn progress_bar_display() {
    let bar_display = ProgressBarDisplay {
        current: 30,
        total: 100,
        message: "message",
        eta: Some(123),
        width: 80,
    };
    assert_eq!(
        bar_display.render(),
        " 30/100: message                                    [======>              ]   2m"
    );
}

#[test]
fn a_table_without_rows() {
    let data: Vec<(String, usize)> = vec![];
    assert_eq!(print_table(["Crate", "Count"], &data), " Crate | Count \n:------|------:\n");
}

#[test]
fn wide_cells_widen_the_column() {
    let data: Vec<(String, usize)> = vec![("serde_json".to_string(), 1234567)];
    assert_eq!(column_widths(["Crate", "Count"], &data), (10, 9));
    assert_eq!(
        print_table(["Crate", "Count"], &data),
        " Crate      |     Count \n:-----------|----------:\n serde_json |   1234567 \n"
    );
}

#[test]
fn cells_keep_to_their_side() {
    let cell = |shown: &str, width: usize, side: Alignment| {
        let mut text = String::from("|");
        push_aligned(&mut text, shown, width, side);
        text
    };
    assert_eq!(cell("ab", 5, Alignment::Left), "|ab   ");
    assert_eq!(cell("ab", 5, Alignment::Right), "|   ab");
    assert_eq!(cell("ab", 5, Alignment::Center), "| ab  ");
    assert_eq!(cell("ab", 6, Alignment::Center), "|  ab  ");
    assert_eq!(cell("abcdef", 3, Alignment::Center), "|abcdef");
    assert_eq!(cell("é√", 3, Alignment::Right), "| é√");
    let rule = |width: usize, side: Alignment| {
        let mut text = String::new();
        push_rule(&mut text, width, side);
        text
    };
    assert_eq!(rule(3, Alignment::Left), ":----");
    assert_eq!(rule(3, Alignment::Right), "----:");
    assert_eq!(rule(3, Alignment::Center), ":--:");
    assert_eq!(rule(1, Alignment::Center), "::");
    assert_eq!(rule(0, Alignment::Left), ":-");
    let mut row = String::new();
    push_row(&mut row, "a", "b", (3, 3), (Alignment::Center, Alignment::Right));
    assert_eq!(row, "  a  |   b \n");
}

#[test]
fn a_table_that_fits_is_printed() {
    let data: Vec<(&str, usize)> = vec![("a", 1)];
    assert_eq!(try_print_table(["A", "B"], &data).unwrap(), " A | B \n:--|--:\n a | 1 \n");
}

#[test]
fn references_are_displayed_as_what_they_refer_to() {
    let count = 12usize;
    let data: Vec<(&&str, &usize)> = vec![(&"ab", &count)];
    assert_eq!(print_table(["A", "B"], &data), " A  |  B \n:---|---:\n ab | 12 \n");
}

#[test]
fn number_widths_count_separators() {
    assert_eq!(0usize.display_width(), 1);
    assert_eq!(999usize.display_width(), 3);
    assert_eq!(1000usize.display_width(), 5);
    assert_eq!(1234567usize.display_width(), 9);
    assert_eq!(1234567usize.text(), "1234567");
    assert_eq!(0usize.text(), "0");
    assert!(matches!(<usize as TableDisplay>::alignment(), Alignment::Right));
    assert!(matches!(<&str as TableDisplay>::alignment(), Alignment::Left));
    assert!(matches!(<String as TableDisplay>::alignment(), Alignment::Left));
    assert_eq!("e\u{301}a".display_width(), 2);
    assert_eq!("e\u{301}a".to_string().display_width(), 2);
}

#[test]
fn digits_are_counted() {
    assert_eq!(num_digits(0), 0);
    assert_eq!(num_digits(9), 1);
    assert_eq!(num_digits(10), 2);
    assert_eq!(num_digits(100), 3);
    assert_eq!(num_digits(usize::MAX), usize::MAX.to_string().len());
}

fn frame(current: usize, total: usize, message: &str, eta: Option<u64>, width: usize) -> String {
    ProgressBarDisplay { current, total, message, eta, width }.render()
}

#[test]
fn the_time_left_is_shown_in_minutes() {
    let tail = |eta| {
        let shown = frame(1, 2, "", eta, 40);
        shown[shown.len() - 4..].to_string()
    };
    assert_eq!(frame(1, 2, "", None, 40), format!("1/2: {:6} [{}>{}]    ", "", "=".repeat(10), " ".repeat(10)));
    assert_eq!(tail(Some(0)), " <1m");
    assert_eq!(tail(Some(29)), " <1m");
    assert_eq!(tail(Some(30)), "  1m");
    assert_eq!(tail(Some(89)), "  1m");
    assert_eq!(tail(Some(90)), "  2m");
    assert_eq!(tail(Some(59_969)), "999m");
    assert_eq!(tail(Some(59_970)), "!!!m");
    assert_eq!(tail(Some(u64::MAX)), "!!!m");
}

#[test]
fn the_bar_fills_with_the_tasks_done() {
    assert_eq!(frame(0, 7, "m", None, 35), format!("0/7: m [>{}]    ", " ".repeat(20)));
    assert_eq!(frame(7, 7, "m", None, 35), format!("7/7: m [{}>]    ", "=".repeat(20)));
    assert_eq!(frame(3, 7, "m", None, 35), format!("3/7: m [{}>{}]    ", "=".repeat(8), " ".repeat(12)));
    assert_eq!(frame(3, 7, "m", None, 34), format!("3/7:  [{}>{}]    ", "=".repeat(8), " ".repeat(12)));
}

#[test]
fn the_message_is_cut_at_a_character() {
    assert_eq!(cut_message("message", 3), "mes");
    assert_eq!(cut_message("message", 7), "message");
    assert_eq!(cut_message("message", 8), "message");
    assert_eq!(cut_message("aé√", 1), "a");
    assert_eq!(cut_message("aé√", 2), "aé√");
    assert_eq!(cut_message("aé√", 3), "aé");
    assert_eq!(cut_message("", 0), "");
    assert_eq!(frame(1, 2, "abcdefgh", None, 36), format!("1/2: ab [{}>{}]    ", "=".repeat(10), " ".repeat(10)));
    assert_eq!(frame(1, 2, "aé√", None, 36), format!("1/2: aé√ [{}>{}]    ", "=".repeat(10), " ".repeat(10)));
}

#[test]
fn the_time_left_is_estimated_from_the_time_taken() {
    assert_eq!(estimate(0, 10, 5_000), None);
    assert_eq!(estimate(1, 10, 5_000), None);
    assert_eq!(estimate(2, 10, 5_000), Some(20));
    assert_eq!(estimate(5, 10, 10_001), Some(10));
    assert_eq!(estimate(10, 10, 10_000), Some(0));
    assert_eq!(estimate(2, 4, u128::MAX), Some(u64::MAX));
    assert_eq!(estimate(2, usize::MAX, u128::from(u64::MAX) * 4), Some(u64::MAX));
}

#[test]
fn states_count_and_draw() {
    let mut state = ProgressBarState::new(10);
    assert_eq!((state.current, state.total, state.displayed), (0, 10, false));
    assert!(state.clear().is_none());
    let first = state.inc("one");
    assert_eq!((state.current, state.displayed), (1, true));
    assert_eq!(first, format!("\r 1/10: {:<34} [==>{}]    ", "one", " ".repeat(18)));
    state.current = 5;
    let later = state.redraw_after("msg", 10_000);
    assert_eq!(later, format!("\r 5/10: {:<34} [{}>{}]  <1m", "msg", "=".repeat(10), " ".repeat(10)));
    let long = state.redraw_after("msg", 600_000);
    assert_eq!(long, format!("\r 5/10: {:<34} [{}>{}]  10m", "msg", "=".repeat(10), " ".repeat(10)));
    assert_eq!(later.chars().count(), WIDTH + 1);
    assert_eq!(state.clear().unwrap(), format!("\r{}\r", " ".repeat(70)));
    let shown = state.display("m", Some(1), 50);
    assert_eq!((shown.current, shown.total, shown.message, shown.eta, shown.width), (5, 10, "m", Some(1), 50));
    let again = state.redraw("x");
    assert!(again.starts_with("\r 5/10: x "));
}

fn bar(stdout_is_tty: bool, stderr_is_tty: bool) -> ProgressBar {
    ProgressBar { stdout_is_tty, stderr_is_tty, progress_bar: None }
}

#[test]
fn no_bar_is_drawn_where_standard_error_is_no_terminal() {
    let mut quiet = bar(true, false);
    assert!(quiet.display_progress(3, "Starting...").is_none());
    assert!(quiet.progress_bar.is_none());
    assert!(quiet.inc_progress("a").is_none());
    let Printed { stdout, stderr } = quiet.println("a", "line");
    assert_eq!(stdout, "line\n");
    assert!(stderr.is_none());
    assert_eq!(quiet.eprintln("a", "line"), "line\n");
    let fresh = ProgressBar::default();
    assert!(!fresh.stdout_is_tty && !fresh.stderr_is_tty && fresh.progress_bar.is_none());
    assert!(ProgressBar::new().progress_bar.is_none());
    assert!(matches!(OutputStream::Stdout, OutputStream::Stdout));
}

#[test]
fn the_bar_is_drawn_again_behind_each_line() {
    let mut drawn = bar(true, true);
    let first = drawn.display_progress(3, "Starting...").unwrap();
    assert_eq!(first, format!("\r0/3: {:<36} [>{}]    ", "Starting...", " ".repeat(20)));
    let second = drawn.inc_progress("serde").unwrap();
    assert_eq!(second, format!("\r1/3: {:<36} [======>{}]    ", "serde", " ".repeat(14)));
    let blank = format!("\r{}\r", " ".repeat(70));
    let Printed { stdout, stderr } = drawn.println("serde", "a line");
    assert_eq!(stdout, format!("{}a line\n", blank));
    assert_eq!(stderr.unwrap(), second);
    assert_eq!(drawn.eprintln("serde", "oops"), format!("{}oops\n{}", blank, second));
    let mut piped = bar(false, true);
    piped.display_progress(3, "Starting...");
    let Printed { stdout, stderr } = piped.println("serde", "a line");
    assert_eq!(stdout, "a line\n");
    assert!(stderr.is_none());
    assert_eq!(piped.progress_bar.as_ref().unwrap().current, 0);
}

#[test]
fn texts_are_compared() {
    assert!(same_text("", ""));
    assert!(same_text("aé", "aé"));
    assert!(!same_text("a", "ab"));
    assert!(!same_text("ab", "ac"));
    assert!(comes_before("", "a"));
    assert!(comes_before("a", "ab"));
    assert!(comes_before("ab", "b"));
    assert!(comes_before("z", "é"));
    assert!(!comes_before("a", "a"));
    assert!(!comes_before("b", "ab"));
    assert!(at_or_before("a", "a"));
    assert!(!at_or_before("b", "a"));
}

#[test]
fn a_bar_is_made_for_the_streams_it_is_told_of() {
    for (out, err) in [(false, false), (false, true), (true, false), (true, true)] {
        let made = ProgressBar::on_streams(out, err);
        assert_eq!((made.stdout_is_tty, made.stderr_is_tty), (out, err));
        assert!(made.progress_bar.is_none());
    }
    let mut drawn = ProgressBar::on_streams(false, true);
    assert!(drawn.display_progress(2, "a").is_some());
    let mut quiet = ProgressBar::on_streams(true, false);
    assert!(quiet.display_progress(2, "a").is_none());
}
