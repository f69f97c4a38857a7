use clippy_lint_tester::attr_cleaning::{clean_parsed, clean_source, CleanError};
use clippy_lint_tester::position::{MatchSpan, SourcePosition};
use clippy_lint_tester::syntax::{Annotation, HeadName, MetaArgument, MetaItem};

fn cleaned(source: &str) -> String {
    clean_source(source).unwrap().unwrap()
}

#[test]
fn test_inner_allow() {
    let result = cleaned("#![allow(clippy::approx_constant)]\n");
    assert_eq!(
        result,
        "/* cleaned by clippy_lint_tester #![allow(clippy::approx_constant)] */\n"
    );
}

#[test]
fn test_inner_allow_multiline_file() {
    let result = cleaned(
        "// Start comment\n\n#![allow(clippy::approx_constant)]\n\nfn f() { }\n\n",
    );
    assert_eq!(
        result,
        "// Start comment\n\n/* cleaned by clippy_lint_tester #![allow(clippy::approx_constant)] */\n\nfn f() { }\n\n"
    );
}

#[test]
fn test_inner_allow_multiline_attr() {
    let result = cleaned(
        "// Start comment\n\n#![allow(\n    clippy::approx_constant,\n    clippy::bad_bit_mask,\n)]\n\nfn f() { }\n\n",
    );
    assert_eq!(
        result,
        "// Start comment\n\n/* cleaned by clippy_lint_tester #![allow(\n    clippy::approx_constant,\n    clippy::bad_bit_mask,\n)] */\n\nfn f() { }\n\n"
    );
}

#[test]
fn test_cfg_attr_feature() {
    let result = cleaned("#![cfg_attr(feature = \"any-feature\", deny(clippy, clippy_pedantic))]\n");
    assert_eq!(
        result,
        "/* cleaned by clippy_lint_tester #![cfg_attr(feature = \"any-feature\", deny(clippy, clippy_pedantic))] */\n"
    );
}

#[test]
fn test_cfg_attr() {
    let result = cleaned("#![cfg_attr(any_cfg, deny(clippy::all, clippy::pedantic))]\n");
    assert_eq!(
        result,
        "/* cleaned by clippy_lint_tester #![cfg_attr(any_cfg, deny(clippy::all, clippy::pedantic))] */\n"
    );
}

#[test]
fn test_cfg_attr_not_lint_setting() {
    assert!(clean_source(
        "#![cfg_attr(not(target_pointer_width = \"64\"), path = \"soft/fixslice32.rs\")]\n"
    )
    .unwrap()
    .is_none());
}

#[test]
fn test_cfg_attr_on_tuple_field() {
    let result = cleaned("pub struct S(#[allow(clippy::vec_box)] RefCell<Vec<Box<u32>>>);\n");
    assert_eq!(
        result,
        "pub struct S(/* cleaned by clippy_lint_tester #[allow(clippy::vec_box)] */ RefCell<Vec<Box<u32>>>);\n"
    );
}

#[test]
fn clippy_msrv_attribute() {
    let result = cleaned("#![feature(custom_inner_attributes)]\n#![clippy::msrv = \"1.30.0\"]\n");
    assert_eq!(
        result,
        "#![feature(custom_inner_attributes)]\n/* cleaned by clippy_lint_tester #![clippy::msrv = \"1.30.0\"] */\n"
    );
}

#[test]
fn cleaning_twice_changes_nothing_more() {
    let once = cleaned("#![warn(clippy::all)]\n\n#[deny(unused)]\nfn f() {}\n");
    assert_eq!(
        once,
        "/* cleaned by clippy_lint_tester #![warn(clippy::all)] */\n\n/* cleaned by clippy_lint_tester #[deny(unused)] */\nfn f() {}\n"
    );
    assert!(clean_source(&once).unwrap().is_none());
}

#[test]
fn source_without_directives_is_unchanged() {
    assert!(clean_source("#[derive(Debug)]\nstruct S;\n\nfn main() {}\n").unwrap().is_none());
    assert!(clean_source("").unwrap().is_none());
}

#[test]
fn line_count_is_kept() {
    let source = "#![allow(a)]\n#![warn(\n  b\n)]\r\nfn f() {\n    #[deny(c)]\n    let _x = 1;\n}\n";
    let result = cleaned(source);
    assert_eq!(result.matches('\n').count(), source.matches('\n').count());
    assert_eq!(
        result,
        "/* cleaned by clippy_lint_tester #![allow(a)] */\n/* cleaned by clippy_lint_tester #![warn(\n  b\n)] */\r\nfn f() {\n    /* cleaned by clippy_lint_tester #[deny(c)] */\n    let _x = 1;\n}\n"
    );
}

#[test]
fn multi_byte_characters_before_an_attribute() {
    let result = cleaned("/* é√ */ #[allow(dead_code)] fn f() {}\n");
    assert_eq!(
        result,
        "/* é√ */ /* cleaned by clippy_lint_tester #[allow(dead_code)] */ fn f() {}\n"
    );
}

#[test]
fn forbid_and_other_attributes_are_left() {
    assert!(clean_source("#![forbid(unsafe_code)]\n#[inline]\nfn f() {}\n").unwrap().is_none());
    assert!(clean_source("#![::clippy::msrv = \"1.30.0\"]\n").unwrap().is_none());
    assert!(clean_source("#![clippy::other = \"1\"]\n").unwrap().is_none());
}

#[test]
fn cfg_attr_is_resolved_only_with_two_arguments() {
    assert!(clean_source("#![cfg_attr(a, allow(b), deny(c))]\n").unwrap().is_none());
    assert!(clean_source("#![cfg_attr(a, \"literal\")]\nfn f() {}\n").unwrap().is_none());
    assert!(clean_source("#![cfg_attr(a)]\n#[cfg_attr]\nfn f() {}\n").unwrap().is_none());
    let nested = cleaned("#![cfg_attr(a, cfg_attr(b, warn(c)))]\n");
    assert_eq!(
        nested,
        "/* cleaned by clippy_lint_tester #![cfg_attr(a, cfg_attr(b, warn(c)))] */\n"
    );
}

#[test]
fn attributes_visited_out_of_source_order_are_all_wrapped() {
    let result = cleaned("fn f(#[allow(unused)] a: u32) {\n    #![warn(dead_code)]\n}\n");
    assert_eq!(
        result,
        "fn f(/* cleaned by clippy_lint_tester #[allow(unused)] */ a: u32) {\n    /* cleaned by clippy_lint_tester #![warn(dead_code)] */\n}\n"
    );
}

#[test]
fn syntax_error_is_reported_with_its_position() {
    let error: CleanError = clean_source("fn f() {}\nfn g( {\n").unwrap_err();
    assert_eq!(error.line, 2);
    assert_eq!(error.column, 6);
    assert!(!error.message.is_empty());
}

#[test]
fn clean_parsed_hands_the_error_on() {
    let error = CleanError { line: 3, column: 7, message: String::from("expected item") };
    let outcome = clean_parsed("whatever", Err(error)).unwrap_err();
    assert_eq!((outcome.line, outcome.column), (3, 7));
    assert_eq!(outcome.message, "expected item");
}

#[test]
fn clean_parsed_wraps_the_given_attributes() {
    let allow = MetaItem::List(
        HeadName { leading_colon: false, segments: vec![String::from("allow")] },
        vec![MetaArgument::Lit],
    );
    let node = Annotation {
        meta: Some(allow),
        span: MatchSpan {
            start: SourcePosition { line: 1, column: 2 },
            end: SourcePosition { line: 1, column: 4 },
        },
    };
    let outcome = clean_parsed("abcdef", Ok(vec![node])).unwrap().unwrap();
    assert_eq!(outcome, "ab/* cleaned by clippy_lint_tester cd */ef");
    let none = Annotation {
        meta: None,
        span: MatchSpan {
            start: SourcePosition { line: 1, column: 2 },
            end: SourcePosition { line: 1, column: 4 },
        },
    };
    assert!(clean_parsed("abcdef", Ok(vec![none])).unwrap().is_none());
}
