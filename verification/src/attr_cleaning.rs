//! Cleaning one source text: parse, locate the lint-control attributes,
//! wrap them in comment markers.

use vstd::prelude::*;
use crate::editor::{commented, insert_comments, lemma_line_count_kept, line_breaks};
use crate::locator::{
    directive_of, get_bad_sections, lemma_located_holds_each_match,
    lemma_located_is_visited_reordered, located, visited,
};
use crate::syntax::{parse_annotations, parsed_annotations, Annotation};

verus! {

/// A syntax error that kept a source text from being cleaned.
#[derive(Debug)]
pub struct CleanError {
    /// The line of the error, counted from 1.
    pub line: usize,
    /// The column of the error, counted in characters from 0.
    pub column: usize,
    /// The parser's message.
    pub message: String,
}

/// What cleaning makes of a source text, given what parsing it yielded: the
/// syntax error if there was one, nothing if no attribute controls lints,
/// and otherwise the text with each such attribute wrapped in markers.
pub open spec fn cleaned(source: Seq<char>, parsed: Result<Seq<Annotation>, CleanError>) -> Result<
    Option<Seq<char>>,
    CleanError,
> {
    match parsed {
        Err(error) => Err(error),
        Ok(nodes) => if located(nodes).len() == 0 {
            Ok(None)
        } else {
            Ok(Some(commented(source, located(nodes))))
        },
    }
}

/// Whether an outcome of cleaning is the expected one: the same error, or
/// no change on both sides, or new text that holds the expected characters.
pub open spec fn outcome_is(
    outcome: Result<Option<String>, CleanError>,
    expected: Result<Option<Seq<char>>, CleanError>,
) -> bool {
    match outcome {
        Err(error) => expected == Err::<Option<Seq<char>>, CleanError>(error),
        Ok(None) => expected == Ok::<Option<Seq<char>>, CleanError>(None),
        Ok(Some(text)) => expected == Ok::<Option<Seq<char>>, CleanError>(Some(text@)),
    }
}

/// The attributes that parsing found, as a sequence.
pub open spec fn parsed_view(parsed: Result<Vec<Annotation>, CleanError>) -> Result<
    Seq<Annotation>,
    CleanError,
> {
    match parsed {
        Ok(nodes) => Ok(nodes@),
        Err(error) => Err(error),
    }
}

/// Cleans a source text that has been parsed: hands the syntax error on,
/// reports no change when no attribute controls lints, and otherwise
/// returns the text with each such attribute wrapped in comment markers.
pub fn clean_parsed(source: &str, parsed: Result<Vec<Annotation>, CleanError>) -> (outcome: Result<
    Option<String>,
    CleanError,
>)
    ensures
        outcome_is(outcome, cleaned(source@, parsed_view(parsed))),
{
    match parsed {
        Err(error) => Err(error),
        Ok(nodes) => {
            let sections = get_bad_sections(&nodes);
            if sections.len() == 0 {
                Ok(None)
            } else {
                Ok(Some(insert_comments(source, &sections)))
            }
        },
    }
}

/// Wraps every lint-control attribute of `source` in comment markers.
/// Returns `Ok(None)` when there is none, so that a caller can leave the
/// file alone, and the first syntax error when `source` does not parse.
pub fn clean_source(source: &str) -> (outcome: Result<Option<String>, CleanError>)
    ensures
        outcome_is(outcome, cleaned(source@, parsed_annotations(source@))),
{
    let parsed = parse_annotations(source);
    clean_parsed(source, parsed)
}

/// The spans of the attributes that were visited are none exactly when no
/// attribute controls lints.
proof fn lemma_visited_none(nodes: Seq<Annotation>)
    ensures
        visited(nodes).len() == 0 <==> forall|i: int|
            0 <= i < nodes.len() ==> directive_of(#[trigger] nodes[i]) is None,
    decreases nodes.len(),
{
    if nodes.len() > 0 {
        let front = nodes.drop_last();
        lemma_visited_none(front);
        if directive_of(nodes.last()) is Some {
            assert(directive_of(nodes[nodes.len() - 1]) is Some);
        } else if visited(front).len() == 0 {
            assert forall|i: int| 0 <= i < nodes.len() implies directive_of(
                #[trigger] nodes[i],
            ) is None by {
                if i < front.len() {
                    assert(front[i] == nodes[i]);
                }
            }
        } else {
            let i = choose|i: int| 0 <= i < front.len() && directive_of(#[trigger] front[i]) is Some;
            assert(front[i] == nodes[i]);
        }
    }
}

/// A source in which no attribute controls lints is reported as
/// unchanged.
pub proof fn lemma_no_directive_no_change(source: Seq<char>, nodes: Seq<Annotation>)
    requires
        forall|i: int| 0 <= i < nodes.len() ==> directive_of(#[trigger] nodes[i]) is None,
    ensures
        cleaned(source, Ok(nodes)) == Ok::<Option<Seq<char>>, CleanError>(None),
{
    lemma_visited_none(nodes);
    lemma_located_is_visited_reordered(nodes);
}

/// A source in which an attribute controls lints is changed: the span of
/// that attribute is among those wrapped.
pub proof fn lemma_directive_is_wrapped(source: Seq<char>, nodes: Seq<Annotation>, index: int)
    requires
        0 <= index < nodes.len(),
        directive_of(nodes[index]) is Some,
    ensures
        located(nodes).contains(nodes[index].span),
        cleaned(source, Ok(nodes)) == Ok::<Option<Seq<char>>, CleanError>(
            Some(commented(source, located(nodes))),
        ),
{
    lemma_located_holds_each_match(nodes, index);
}

/// A changed text has as many line breaks, and so as many lines, as the
/// source it was made from.
pub proof fn lemma_cleaned_keeps_lines(source: Seq<char>, parsed: Result<Seq<Annotation>, CleanError>)
    ensures
        cleaned(source, parsed) matches Ok(Some(text)) ==> line_breaks(text) == line_breaks(source),
{
    if let Ok(nodes) = parsed {
        lemma_line_count_kept(source, located(nodes));
    }
}

/// A syntax error is all that comes of a source that does not parse: no
/// text is returned beside it.
pub proof fn lemma_syntax_error_is_final(source: Seq<char>, error: CleanError)
    ensures
        cleaned(source, Err(error)) == Err::<Option<Seq<char>>, CleanError>(error),
{
}

} // verus!
