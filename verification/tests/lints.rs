use clippy_lint_tester::lints::{
    check_and_format_lint_names, format_lint_name, is_valid_lint_name, lint_flag_name,
    lints_in_help, list_name, match_lint_names, note, strike, write_not_found,
};

fn strings(items: &[&str]) -> Vec<String> {
    items.iter().map(|item| item.to_string()).collect()
}

const HELP: &str = "Available lint options:\n    -W <foo>  Warn about <foo>\n\nLint checks provided by rustc:\n\n    some-lint  warn  about rustc\n\nLint checks provided by plugins:\n\n    clippy::approx-constant  deny  the approximate of a known float constant\n\tclippy::needless-return\twarn\tusing a return statement\r\n    clippy::vec-box  warn  usage of `Vec<Box<T>>`\n\nLint groups provided by plugins:\n\n    clippy::all  clippy::approx-constant, clippy::vec-box\n    clippy::correctness  ...\n";

#[test]
fn lint_names_are_checked() {
    for name in ["approx_constant", "clippy::approx_constant", "A-b_9", "clippy::", "x"] {
        assert!(is_valid_lint_name(name), "{}", name);
    }
    for name in ["", "a b", "clippy::a::b", "other::a", "a;", "é", "clippy:a", "a\n"] {
        assert!(!is_valid_lint_name(name), "{}", name);
    }
}

#[test]
fn lint_names_are_written_as_clippy_lists_them() {
    assert_eq!(format_lint_name("approx_constant"), "clippy::approx-constant");
    assert_eq!(format_lint_name("Approx_Constant"), "clippy::approx-constant");
    assert_eq!(format_lint_name("CLIPPY::VEC_BOX"), "clippy::vec-box");
    assert_eq!(format_lint_name("clippy::vec-box"), "clippy::vec-box");
    assert_eq!(format_lint_name(""), "clippy::");
    assert_eq!(list_name("Vec_Box"), "clippy::Vec-Box");
    assert_eq!(lint_flag_name("clippy::vec-box"), "clippy::vec_box");
}

#[test]
fn the_lints_of_the_help_are_read() {
    assert_eq!(
        lints_in_help(HELP),
        strings(&["clippy::approx-constant", "clippy::needless-return", "clippy::vec-box"])
    );
    assert!(lints_in_help("").is_empty());
    assert!(lints_in_help("clippy::a\nclippy::b\n").is_empty());
    assert_eq!(lints_in_help("Lint checks provided by plugins\na b\n\n  c"), strings(&["a", "c"]));
    assert_eq!(
        lints_in_help("x\nLint checks provided by plugins: more\nLint checks provided by plugins\nLint groups provided by plugins\nz\n"),
        strings(&["Lint"])
    );
    assert!(lints_in_help(" Lint checks provided by plugins\na\n").is_empty());
}

#[test]
fn lints_not_found() {
    let outcome = check_and_format_lint_names(&strings(&["approx_constant", "bad_lint_2", "Bad_Lint_1"]), HELP);
    assert_eq!(outcome.unwrap_err(), "Lints not found: `Bad_Lint_1`, `bad_lint_2`");
    let one = check_and_format_lint_names(&strings(&["correctness"]), HELP);
    assert_eq!(one.unwrap_err(), "Lints not found: `correctness`");
}

#[test]
fn lints_found_come_in_the_order_of_the_help() {
    let outcome = check_and_format_lint_names(
        &strings(&["vec_box", "clippy::Approx_Constant", "VEC_BOX"]),
        HELP,
    );
    assert_eq!(outcome.unwrap(), strings(&["clippy::approx_constant", "clippy::vec_box"]));
    assert!(check_and_format_lint_names(&vec![], HELP).unwrap().is_empty());
    assert!(check_and_format_lint_names(&vec![], "").unwrap().is_empty());
    let listed = strings(&["clippy::b", "clippy::a", "clippy::b"]);
    assert_eq!(match_lint_names(&strings(&["a", "b"]), &listed).unwrap(), strings(&["clippy::b", "clippy::a"]));
}

#[test]
fn requests_are_noted_in_order() {
    let mut list: Vec<(String, String)> = vec![];
    for (key, value) in [("m", "1"), ("a", "2"), ("z", "3"), ("m", "4"), ("b", "5")] {
        note(&mut list, key.to_string(), value.to_string());
    }
    let shown: Vec<(&str, &str)> = list.iter().map(|pair| (pair.0.as_str(), pair.1.as_str())).collect();
    assert_eq!(shown, vec![("a", "2"), ("b", "5"), ("m", "4"), ("z", "3")]);
    assert!(strike(&mut list, "m"));
    assert!(!strike(&mut list, "m"));
    assert!(!strike(&mut list, "q"));
    assert_eq!(list.len(), 3);
    assert_eq!(write_not_found(&list), "Lints not found: `2`, `5`, `3`");
}
