//! The summary that closes a lint run, in Markdown.

use vstd::prelude::*;
use vstd::string::StringExecFns;
use crate::markdown_formatting::{print_table, table_text};
use crate::text::{decimal, push_char, push_decimal};

verus! {

/// What a lint run found.
pub struct RunOutcome {
    /// The crates that did not build.
    pub build_failures: Vec<String>,
    /// The crates with warnings, each with their number.
    pub warning_counts: Vec<(String, usize)>,
    /// The crates that allow a lint under test, each with the number of
    /// places.
    pub allow_counts: Vec<(String, usize)>,
    /// The crates in which the fix failed.
    pub fix_failures: Vec<String>,
}

/// What a lint run was asked to do.
#[derive(Clone, Copy, Debug, PartialEq, Eq, Structural)]
pub struct RunOptions {
    /// Whether any lint was under test.
    pub has_lints: bool,
    /// Whether the crates were searched for `allow` attributes.
    pub check_allows: bool,
    /// Whether fixes were tried.
    pub fix: bool,
}

/// The numbers of a table added up.
pub open spec fn total_of(counts: Seq<(String, usize)>) -> nat
    decreases counts.len(),
{
    if counts.len() == 0 {
        0
    } else {
        total_of(counts.drop_last()) + counts.last().1 as nat
    }
}

/// Adds the numbers of a table up.
pub fn total_count(counts: &Vec<(String, usize)>) -> (total: usize)
    requires
        total_of(counts@) <= usize::MAX,
    ensures
        total == total_of(counts@),
{
    let mut total: usize = 0;
    let mut index: usize = 0;
    assert(counts@.take(0) =~= Seq::empty());
    while index < counts.len()
        invariant
            index <= counts.len(),
            total == total_of(counts@.take(index as int)),
            total_of(counts@) <= usize::MAX,
        decreases counts.len() - index,
    {
        proof {
            let upto = counts@.take(index + 1);
            assert(upto.drop_last() == counts@.take(index as int));
            assert(upto.last() == counts@[index as int]);
            lemma_total_grows(counts@, index + 1);
        }
        total = total + counts[index].1;
        index = index + 1;
    }
    assert(counts@.take(index as int) == counts@);
    total
}

/// The numbers of the first rows of a table add up to no more than those
/// of all.
pub proof fn lemma_total_grows(counts: Seq<(String, usize)>, upto: int)
    requires
        0 <= upto <= counts.len(),
    ensures
        total_of(counts.take(upto)) <= total_of(counts),
    decreases counts.len() - upto,
{
    if upto < counts.len() {
        lemma_total_grows(counts, upto + 1);
        assert(counts.take(upto + 1).drop_last() == counts.take(upto));
    } else {
        assert(counts.take(upto) == counts);
    }
}

/// A list in Markdown: each name on a line of its own behind a hyphen.
pub open spec fn bullets(names: Seq<String>) -> Seq<char>
    decreases names.len(),
{
    if names.len() == 0 {
        Seq::empty()
    } else {
        bullets(names.drop_last()) + "- "@ + names.last()@ + seq!['\n']
    }
}

/// A section that counts crates and names them: an empty line, the
/// heading, an empty line, the total, and the names behind an empty line
/// where there are any.
pub open spec fn listing_section(heading: Seq<char>, names: Seq<String>) -> Seq<char> {
    seq!['\n'] + heading + "\n\nTotal: "@ + decimal(names.len()) + seq!['\n'] + if names.len() > 0 {
        seq!['\n'] + bullets(names)
    } else {
        Seq::empty()
    }
}

/// A section that counts findings by crate: an empty line, the heading,
/// an empty line, the total, and the table behind an empty line where
/// there is any row.
pub open spec fn table_section(heading: Seq<char>, counts: Seq<(String, usize)>) -> Seq<char> {
    seq!['\n'] + heading + "\n\nTotal: "@ + decimal(total_of(counts)) + seq!['\n'] + if counts.len()
        > 0 {
        seq!['\n'] + table_text(("Crate"@, "Count"@), counts)
    } else {
        Seq::empty()
    }
}

/// The summary of a run: the build failures, where there are any or no
/// lint was under test; the warnings, where a lint was under test; the
/// `allow` attributes, where they were searched for; the fix failures,
/// where fixes were tried.
pub open spec fn summary_text(outcome: RunOutcome, options: RunOptions) -> Seq<char> {
    "\n# Summary\n"@ + (if outcome.build_failures@.len() > 0 || !options.has_lints {
        listing_section("## Build failures"@, outcome.build_failures@)
    } else {
        Seq::empty()
    }) + (if options.has_lints {
        table_section("## Warnings"@, outcome.warning_counts@)
    } else {
        Seq::empty()
    }) + (if options.check_allows {
        table_section("## Allows"@, outcome.allow_counts@)
    } else {
        Seq::empty()
    }) + (if options.fix {
        listing_section("## Fix failures"@, outcome.fix_failures@)
    } else {
        Seq::empty()
    })
}

/// Appends a section that counts crates and names them.
pub fn push_listing(text: &mut String, heading: &str, names: &Vec<String>)
    ensures
        final(text)@ == old(text)@ + listing_section(heading@, names@),
{
    push_char(text, '\n');
    text.append(heading);
    text.append("\n\nTotal: ");
    push_decimal(text, names.len());
    push_char(text, '\n');
    let ghost head = text@;
    assert(head == old(text)@ + (seq!['\n'] + heading@ + "\n\nTotal: "@ + decimal(
        names@.len(),
    ) + seq!['\n']));
    if names.len() > 0 {
        push_char(text, '\n');
        let ghost start = text@;
        let mut index: usize = 0;
        assert(start + bullets(names@.take(0)) == start);
        while index < names.len()
            invariant
                index <= names.len(),
                text@ == start + bullets(names@.take(index as int)),
            decreases names.len() - index,
        {
            proof {
                let upto = names@.take(index + 1);
                assert(upto.drop_last() == names@.take(index as int));
                assert(upto.last() == names@[index as int]);
            }
            text.append("- ");
            text.append(names[index].as_str());
            push_char(text, '\n');
            index = index + 1;
        }
        assert(names@.take(index as int) == names@);
        assert(text@ == head + (seq!['\n'] + bullets(names@)));
    } else {
        assert(head + Seq::<char>::empty() == head);
    }
}

/// Appends a section that counts findings by crate.
pub fn push_table(text: &mut String, heading: &str, counts: &Vec<(String, usize)>)
    requires
        total_of(counts@) <= usize::MAX,
    ensures
        final(text)@ == old(text)@ + table_section(heading@, counts@),
{
    push_char(text, '\n');
    text.append(heading);
    text.append("\n\nTotal: ");
    push_decimal(text, total_count(counts));
    push_char(text, '\n');
    let ghost head = text@;
    assert(head == old(text)@ + (seq!['\n'] + heading@ + "\n\nTotal: "@ + decimal(
        total_of(counts@),
    ) + seq!['\n']));
    if counts.len() > 0 {
        push_char(text, '\n');
        let table = print_table(["Crate", "Count"], counts);
        text.append(table.as_str());
        assert(text@ == head + (seq!['\n'] + table_text(("Crate"@, "Count"@), counts@)));
    } else {
        assert(head + Seq::<char>::empty() == head);
    }
}

/// Writes the summary of a run.
pub fn summary(outcome: &RunOutcome, options: RunOptions) -> (text: String)
    requires
        total_of(outcome.warning_counts@) <= usize::MAX,
        total_of(outcome.allow_counts@) <= usize::MAX,
    ensures
        text@ == summary_text(*outcome, options),
{
    let mut text = String::from_str("\n# Summary\n");
    let ghost start = text@;
    if outcome.build_failures.len() > 0 || !options.has_lints {
        push_listing(&mut text, "## Build failures", &outcome.build_failures);
    } else {
        assert(start + Seq::<char>::empty() == start);
    }
    let ghost first = text@;
    if options.has_lints {
        push_table(&mut text, "## Warnings", &outcome.warning_counts);
    } else {
        assert(first + Seq::<char>::empty() == first);
    }
    let ghost second = text@;
    if options.check_allows {
        push_table(&mut text, "## Allows", &outcome.allow_counts);
    } else {
        assert(second + Seq::<char>::empty() == second);
    }
    let ghost third = text@;
    if options.fix {
        push_listing(&mut text, "## Fix failures", &outcome.fix_failures);
    } else {
        assert(third + Seq::<char>::empty() == third);
    }
    text
}

} // verus!
