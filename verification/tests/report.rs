use clippy_lint_tester::lint_run::{
    allow_lines, build_failure_lines, is_allow_found, is_one_of, is_wanted_warning, lint_success,
    location_line, should_fix, trim_end, warning_lines, Diagnostic, DiagnosticSpan, LintResult,
};
use clippy_lint_tester::report::{summary, total_count, RunOptions, RunOutcome};
use clippy_lint_tester::text::{push_decimal, push_repeated, text_between, to_chars};

fn strings(items: &[&str]) -> Vec<String> {
    items.iter().map(|item| item.to_string()).collect()
}

fn span(in_expansion: bool) -> DiagnosticSpan {
    DiagnosticSpan { file_name: "src/lib.rs".to_string(), line_start: 12, column_start: 5, in_expansion }
}

fn message(code: Option<&str>, rendered: Option<&str>, spans: Vec<DiagnosticSpan>) -> Diagnostic {
    Diagnostic {
        code: code.map(|code| code.to_string()),
        rendered: rendered.map(|text| text.to_string()),
        spans,
    }
}

#[test]
fn warnings_of_the_lints_under_test_are_told() {
    let lints = strings(&["clippy::a", "clippy::b"]);
    assert!(is_one_of("clippy::b", &lints));
    assert!(!is_one_of("clippy::c", &lints));
    assert!(!is_one_of("clippy::a", &vec![]));
    assert!(is_wanted_warning(&message(Some("clippy::a"), Some("text"), vec![]), &lints));
    assert!(!is_wanted_warning(&message(Some("clippy::a"), None, vec![]), &lints));
    assert!(!is_wanted_warning(&message(None, Some("text"), vec![]), &lints));
    assert!(!is_wanted_warning(&message(Some("unused"), Some("text"), vec![]), &lints));
}

#[test]
fn allows_are_told() {
    assert!(is_allow_found(&message(Some("E0453"), Some("text"), vec![span(false), span(false)])));
    assert!(is_allow_found(&message(Some("E0453"), Some("text"), vec![])));
    assert!(!is_allow_found(&message(Some("E0453"), Some("text"), vec![span(false), span(true)])));
    assert!(!is_allow_found(&message(Some("E0453"), None, vec![span(false)])));
    assert!(!is_allow_found(&message(Some("E0452"), Some("text"), vec![span(false)])));
    assert!(!is_allow_found(&message(None, Some("text"), vec![span(false)])));
}

#[test]
fn findings_are_printed_with_their_place() {
    assert_eq!(location_line("serde", &span(false)), "---> serde/src/lib.rs:12:5");
    assert_eq!(
        warning_lines("serde", &span(false), "warning: x\n  --> here\n\n \t"),
        strings(&["", "---> serde/src/lib.rs:12:5", "warning: x\n  --> here"])
    );
    assert_eq!(
        allow_lines("serde", &span(false), "error[E0453]\n"),
        strings(&["---> serde/src/lib.rs:12:5", "Allow found", "error[E0453]\n"])
    );
    assert_eq!(trim_end("  a b \u{2003}\n"), "  a b");
    assert_eq!(trim_end(" \n"), "");
    assert_eq!(trim_end(""), "");
    assert_eq!(trim_end("é"), "é");
}

#[test]
fn build_failures_are_printed_with_the_command() {
    assert_eq!(
        build_failure_lines("serde", "error: could not compile", "cargo x"),
        strings(&["", "serde - build failed", "Command used: `cargo x`"])
    );
    let panicked = "thread panicked\nerror: internal compiler error: unexpected panic\n\nnote: the compiler unexpectedly panicked. this is a bug.\n";
    assert_eq!(
        build_failure_lines("serde", panicked, "cargo x"),
        strings(&["", "serde - build failed (ICE)", "Command used: `cargo x`"])
    );
}

#[test]
fn fixes_are_tried_only_where_there_is_something_to_fix() {
    let lints = strings(&["clippy::a"]);
    assert!(should_fix(1, &lints, true));
    assert!(!should_fix(0, &lints, true));
    assert!(!should_fix(1, &vec![], true));
    assert!(!should_fix(1, &lints, false));
    assert_eq!(lint_success(3, true, false), LintResult::Success { warning_count: 3, fix_failed: true });
    assert_eq!(lint_success(3, true, true), LintResult::Success { warning_count: 3, fix_failed: false });
    assert_eq!(lint_success(0, false, false), LintResult::Success { warning_count: 0, fix_failed: false });
    assert!(LintResult::InvalidCrate != LintResult::BuildFailed);
}

fn outcome() -> RunOutcome {
    RunOutcome {
        build_failures: strings(&["broken"]),
        warning_counts: vec![("a".to_string(), 2), ("serde".to_string(), 10)],
        allow_counts: vec![],
        fix_failures: vec![],
    }
}

#[test]
fn the_summary_of_a_run_without_lints() {
    let empty = RunOutcome { build_failures: vec![], warning_counts: vec![], allow_counts: vec![], fix_failures: vec![] };
    let options = RunOptions { has_lints: false, check_allows: false, fix: false };
    assert_eq!(summary(&empty, options), "\n# Summary\n\n## Build failures\n\nTotal: 0\n");
}

#[test]
fn the_summary_of_a_full_run() {
    let options = RunOptions { has_lints: true, check_allows: true, fix: true };
    assert_eq!(
        summary(&outcome(), options),
        "\n# Summary\n\n## Build failures\n\nTotal: 1\n\n- broken\n\n## Warnings\n\nTotal: 12\n\n Crate | Count \n:------|------:\n a     |     2 \n serde |    10 \n\n## Allows\n\nTotal: 0\n\n## Fix failures\n\nTotal: 0\n"
    );
    let mut clean = outcome();
    clean.build_failures.clear();
    let lints_only = RunOptions { has_lints: true, check_allows: false, fix: false };
    assert_eq!(
        summary(&clean, lints_only),
        "\n# Summary\n\n## Warnings\n\nTotal: 12\n\n Crate | Count \n:------|------:\n a     |     2 \n serde |    10 \n"
    );
    assert_eq!(total_count(&outcome().warning_counts), 12);
    assert_eq!(total_count(&vec![]), 0);
}

#[test]
fn texts_are_built_from_characters() {
    let chars = to_chars("aé√b");
    assert_eq!(chars, vec!['a', 'é', '√', 'b']);
    assert_eq!(text_between(&chars, 1, 3), "é√");
    assert_eq!(text_between(&chars, 2, 2), "");
    let mut text = String::from("n=");
    push_decimal(&mut text, 0);
    push_decimal(&mut text, 10_203);
    push_decimal(&mut text, usize::MAX);
    assert_eq!(text, format!("n=010203{}", usize::MAX));
    push_repeated(&mut text, 'x', 3);
    push_repeated(&mut text, 'y', 0);
    assert!(text.ends_with("5xxx"));
}
