//! What a lint run makes of the messages that the compiler sends: which
//! count as warnings of the lints under test, and what is printed for
//! them. The caller starts the compiler and reads its output.

use vstd::prelude::*;
use vstd::string::StringExecFns;
use crate::lints::{is_whitespace, white};
use crate::text::{push_char, push_decimal, same_text, decimal, text_between, texts, to_chars};

verus! {

/// How linting one crate ended.
#[derive(Clone, Copy, Debug, PartialEq, Eq, Structural)]
pub enum LintResult {
    /// The directory holds no crate.
    InvalidCrate,
    /// The crate did not build.
    BuildFailed,
    /// The crate was linted.
    Success { warning_count: usize, fix_failed: bool },
}

/// Where in a crate a message points.
pub struct DiagnosticSpan {
    pub file_name: String,
    pub line_start: usize,
    pub column_start: usize,
    /// Whether the place lies in the expansion of a macro.
    pub in_expansion: bool,
}

/// A message of the compiler, as far as a lint run reads it.
pub struct Diagnostic {
    /// The code of the message: the name of a lint or the number of an
    /// error.
    pub code: Option<String>,
    /// The message as the compiler would print it.
    pub rendered: Option<String>,
    pub spans: Vec<DiagnosticSpan>,
}

/// Whether `code` is one of `lints`.
pub open spec fn names_one_of(code: Seq<char>, lints: Seq<String>) -> bool {
    exists|i: int| 0 <= i < lints.len() && (#[trigger] lints[i])@ == code
}

/// Decides `names_one_of`.
pub fn is_one_of(code: &str, lints: &Vec<String>) -> (r: bool)
    ensures
        r == names_one_of(code@, lints@),
{
    let mut index: usize = 0;
    while index < lints.len()
        invariant
            index <= lints.len(),
            forall|i: int| 0 <= i < index ==> (#[trigger] lints@[i])@ != code@,
        decreases lints.len() - index,
    {
        if same_text(code, lints[index].as_str()) {
            return true;
        }
        index = index + 1;
    }
    false
}

/// Whether a message is a warning of one of `lints` that can be shown: it
/// has a code that names one of them, and it has its text.
pub open spec fn is_warning_of(message: Diagnostic, lints: Seq<String>) -> bool {
    &&& message.code matches Some(code)
    &&& message.rendered is Some
    &&& names_one_of(code@, lints)
}

/// Decides `is_warning_of`.
pub fn is_wanted_warning(message: &Diagnostic, lints: &Vec<String>) -> (r: bool)
    ensures
        r == is_warning_of(*message, lints@),
{
    match (&message.code, &message.rendered) {
        (Some(code), Some(_)) => is_one_of(code.as_str(), lints),
        _ => false,
    }
}

/// Whether a message says that the crate allows a lint that the run
/// forbids: it is error E0453, it has its text, and none of the places it
/// points to lies in the expansion of a macro.
pub open spec fn is_allow_of(message: Diagnostic) -> bool {
    &&& message.code matches Some(code)
    &&& message.rendered is Some
    &&& code@ == "E0453"@
    &&& forall|i: int| 0 <= i < message.spans@.len() ==> !(#[trigger] message.spans@[i]).in_expansion
}

/// Decides `is_allow_of`.
pub fn is_allow_found(message: &Diagnostic) -> (r: bool)
    ensures
        r == is_allow_of(*message),
{
    match (&message.code, &message.rendered) {
        (Some(code), Some(_)) => {
            if !same_text(code.as_str(), "E0453") {
                return false;
            }
            let mut index: usize = 0;
            while index < message.spans.len()
                invariant
                    index <= message.spans.len(),
                    forall|i: int| 0 <= i < index ==> !(#[trigger] message.spans@[i]).in_expansion,
                decreases message.spans.len() - index,
            {
                if message.spans[index].in_expansion {
                    return false;
                }
                index = index + 1;
            }
            true
        },
        _ => false,
    }
}

/// The line that says where a message points: the crate, the file, the
/// line and the column.
pub open spec fn location_text(
    crate_name: Seq<char>,
    file_name: Seq<char>,
    line: nat,
    column: nat,
) -> Seq<char> {
    "---> "@ + crate_name + seq!['/'] + file_name + seq![':'] + decimal(line) + seq![':']
        + decimal(column)
}

/// Writes the line that says where a message points.
pub fn location_line(crate_name: &str, span: &DiagnosticSpan) -> (line: String)
    ensures
        line@ == location_text(
            crate_name@,
            span.file_name@,
            span.line_start as nat,
            span.column_start as nat,
        ),
{
    let mut line = String::from_str("---> ");
    line.append(crate_name);
    push_char(&mut line, '/');
    line.append(span.file_name.as_str());
    push_char(&mut line, ':');
    push_decimal(&mut line, span.line_start);
    push_char(&mut line, ':');
    push_decimal(&mut line, span.column_start);
    line
}

/// How much of a text is left once the whitespace at its end is taken
/// off.
pub open spec fn trimmed_len(text: Seq<char>) -> int
    decreases text.len(),
{
    if text.len() == 0 {
        0
    } else if white(text.last()) {
        trimmed_len(text.drop_last())
    } else {
        text.len() as int
    }
}

/// A text without the whitespace at its end.
pub open spec fn trimmed_end(text: Seq<char>) -> Seq<char> {
    text.take(trimmed_len(text))
}

/// Takes the whitespace at the end of a text off.
pub fn trim_end(text: &str) -> (trimmed: String)
    ensures
        trimmed@ == trimmed_end(text@),
{
    let chars = to_chars(text);
    let mut end = chars.len();
    assert(chars@.take(end as int) == chars@);
    while end > 0 && is_whitespace(chars[end - 1])
        invariant
            end <= chars.len(),
            trimmed_len(chars@) == trimmed_len(chars@.take(end as int)),
        decreases end,
    {
        assert(chars@.take(end as int).drop_last() == chars@.take(end - 1));
        end = end - 1;
    }
    assert(trimmed_len(chars@.take(end as int)) == end);
    let trimmed = text_between(&chars, 0, end);
    assert(chars@.subrange(0, end as int) == chars@.take(end as int));
    trimmed
}

/// What is printed for a warning: an empty line, where the warning
/// points, and its text without the whitespace at its end.
pub fn warning_lines(crate_name: &str, span: &DiagnosticSpan, rendered: &str) -> (lines: Vec<String>)
    ensures
        texts(lines@) == seq![
            Seq::<char>::empty(),
            location_text(
                crate_name@,
                span.file_name@,
                span.line_start as nat,
                span.column_start as nat,
            ),
            trimmed_end(rendered@),
        ],
{
    let mut lines: Vec<String> = Vec::new();
    lines.push(String::new());
    lines.push(location_line(crate_name, span));
    lines.push(trim_end(rendered));
    assert(texts(lines@) =~= seq![
        Seq::<char>::empty(),
        location_text(
            crate_name@,
            span.file_name@,
            span.line_start as nat,
            span.column_start as nat,
        ),
        trimmed_end(rendered@),
    ]);
    lines
}

/// What is printed for an `allow` that was found: where it stands, that
/// it was found, and the compiler's text.
pub fn allow_lines(crate_name: &str, span: &DiagnosticSpan, rendered: &str) -> (lines: Vec<String>)
    ensures
        texts(lines@) == seq![
            location_text(
                crate_name@,
                span.file_name@,
                span.line_start as nat,
                span.column_start as nat,
            ),
            "Allow found"@,
            rendered@,
        ],
{
    let mut lines: Vec<String> = Vec::new();
    lines.push(location_line(crate_name, span));
    lines.push(String::from_str("Allow found"));
    lines.push(String::from_str(rendered));
    assert(texts(lines@) =~= seq![
        location_text(
            crate_name@,
            span.file_name@,
            span.line_start as nat,
            span.column_start as nat,
        ),
        "Allow found"@,
        rendered@,
    ]);
    lines
}

/// Whether `needle` stands somewhere in `text`.
pub open spec fn occurs_in(needle: Seq<char>, text: Seq<char>) -> bool {
    exists|at: int|
        0 <= at <= text.len() - needle.len() && #[trigger] text.subrange(at, at + needle.len())
            == needle
}

/// `str::contains` for a text as the pattern: whether the pattern matches
/// a part of the text.
#[verifier::external_body]
fn contains(text: &str, needle: &str) -> (r: bool)
    ensures
        r == occurs_in(needle@, text@),
{
    text.contains(needle)
}

/// What the compiler writes when it panics.
pub open spec fn panic_notice() -> Seq<char> {
    "internal compiler error: unexpected panic\n\nnote: the compiler unexpectedly panicked. this is a bug."@
}

/// What is printed for a crate that did not build: an empty line, that
/// the build failed, with a mark where the compiler panicked, and the
/// command that was used.
pub fn build_failure_lines(crate_name: &str, errors: &str, command: &str) -> (lines: Vec<String>)
    ensures
        texts(lines@) == seq![
            Seq::<char>::empty(),
            crate_name@ + " - build failed"@ + if occurs_in(panic_notice(), errors@) {
                " (ICE)"@
            } else {
                Seq::<char>::empty()
            },
            "Command used: `"@ + command@ + seq!['`'],
        ],
{
    let ice = contains(
        errors,
        "internal compiler error: unexpected panic\n\nnote: the compiler unexpectedly panicked. this is a bug.",
    );
    let mut failed = String::from_str(crate_name);
    failed.append(" - build failed");
    let ghost plain = failed@;
    if ice {
        failed.append(" (ICE)");
    } else {
        assert(plain + Seq::<char>::empty() == plain);
    }
    let mut used = String::from_str("Command used: `");
    used.append(command);
    push_char(&mut used, '`');
    assert(used@ == "Command used: `"@ + command@ + seq!['`']);
    assert(failed@ == crate_name@ + " - build failed"@ + if occurs_in(panic_notice(), errors@) {
        " (ICE)"@
    } else {
        Seq::<char>::empty()
    });
    let mut lines: Vec<String> = Vec::new();
    lines.push(String::new());
    lines.push(failed);
    lines.push(used);
    assert(texts(lines@) =~= seq![
        Seq::<char>::empty(),
        crate_name@ + " - build failed"@ + if occurs_in(panic_notice(), errors@) {
            " (ICE)"@
        } else {
            Seq::<char>::empty()
        },
        "Command used: `"@ + command@ + seq!['`'],
    ]);
    lines
}

/// Whether a fix is to be tried: there are warnings, there are lints under
/// test, and there is a directory to fix in.
pub fn should_fix(warning_count: usize, lints: &Vec<String>, has_fix_dir: bool) -> (r: bool)
    ensures
        r == (warning_count > 0 && lints@.len() > 0 && has_fix_dir),
{
    warning_count > 0 && lints.len() > 0 && has_fix_dir
}

/// How linting a crate that built ended.
pub fn lint_success(warning_count: usize, fix_tried: bool, fix_succeeded: bool) -> (result:
    LintResult)
    ensures
        result == (LintResult::Success {
            warning_count,
            fix_failed: fix_tried && !fix_succeeded,
        }),
{
    LintResult::Success { warning_count, fix_failed: fix_tried && !fix_succeeded }
}

} // verus!
