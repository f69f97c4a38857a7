//! The names of lints: which are well formed, how Clippy writes them, and
//! which of those asked for Clippy knows.

use vstd::prelude::*;
use vstd::string::StringExecFns;
use crate::position::{lemma_line_end_bounds, line_end};
use crate::text::{
    at_or_before, push_char, same_text, starts_with, text_before, text_between, texts, to_chars,
};

verus! {

/// Whether a character may stand in the name of a lint: a letter or digit
/// of ASCII, an underscore or a hyphen.
pub open spec fn is_name_char(c: char) -> bool {
    let code = c as u32;
    ||| 97 <= code <= 122
    ||| 65 <= code <= 90
    ||| 48 <= code <= 57
    ||| code == 95
    ||| code == 45
}

/// A name without the `clippy::` it may start with.
pub open spec fn bare_name(name: Seq<char>) -> Seq<char> {
    if "clippy::"@.is_prefix_of(name) {
        name.skip(8)
    } else {
        name
    }
}

/// Whether a name can be that of a lint: it is not empty, and behind the
/// `clippy::` it may start with it holds nothing but characters of names.
pub open spec fn valid_lint_name(name: Seq<char>) -> bool {
    &&& name.len() > 0
    &&& forall|i: int| 0 <= i < bare_name(name).len() ==> is_name_char(#[trigger] bare_name(name)[i])
}

/// Decides `valid_lint_name`.
pub fn is_valid_lint_name(name: &str) -> (valid: bool)
    ensures
        valid == valid_lint_name(name@),
{
    let chars = to_chars(name);
    if chars.len() == 0 {
        return false;
    }
    let prefix = to_chars("clippy::");
    proof {
        reveal_strlit("clippy::");
        assert(chars@.subrange(0, chars@.len() as int) == chars@);
    }
    let mut index: usize = if starts_with(&chars, 0, chars.len(), &prefix) {
        8
    } else {
        0
    };
    let ghost skipped = index as int;
    assert(bare_name(name@) == chars@.skip(skipped));
    while index < chars.len()
        invariant
            0 <= skipped <= index <= chars.len(),
            0 < name@.len(),
            bare_name(name@) == chars@.skip(skipped),
            forall|i: int| skipped <= i < index ==> is_name_char(#[trigger] chars@[i]),
        decreases chars.len() - index,
    {
        let code = chars[index] as u32;
        let fits = (97 <= code && code <= 122) || (65 <= code && code <= 90) || (48 <= code && code
            <= 57) || code == 95 || code == 45;
        if !fits {
            assert(bare_name(name@)[index - skipped] == chars@[index as int]);
            return false;
        }
        index = index + 1;
    }
    assert forall|i: int| 0 <= i < bare_name(name@).len() implies is_name_char(
        #[trigger] bare_name(name@)[i],
    ) by {
        assert(chars@.skip(skipped)[i] == chars@[skipped + i]);
    }
    true
}

/// What `str::to_lowercase` makes of a text.
pub uninterp spec fn lowercased(text: Seq<char>) -> Seq<char>;

/// `str::to_lowercase`: the text in lower case, as Unicode defines it. The
/// contract claims only that the result is a function of the text.
#[verifier::external_body]
fn to_lowercase(text: &str) -> (lower: String)
    ensures
        lower@ == lowercased(text@),
{
    text.to_lowercase()
}

/// A text with each `from` turned into `to`.
pub open spec fn swapped(text: Seq<char>, from: char, to: char) -> Seq<char> {
    text.map_values(
        |c: char|
            if c == from {
                to
            } else {
                c
            },
    )
}

/// The name under which Clippy lists a lint, from the name in lower case:
/// with `clippy::` before it unless it is there, and with hyphens for
/// underscores.
pub open spec fn listed_name(lower: Seq<char>) -> Seq<char> {
    swapped(
        if "clippy::"@.is_prefix_of(lower) {
            lower
        } else {
            "clippy::"@ + lower
        },
        '_',
        '-',
    )
}

/// Appends `chars` with each `from` turned into `to`.
pub fn push_swapped(text: &mut String, chars: &Vec<char>, from: char, to: char)
    ensures
        final(text)@ == old(text)@ + swapped(chars@, from, to),
{
    let mut index: usize = 0;
    assert(text@ + swapped(chars@, from, to).take(0) == text@);
    while index < chars.len()
        invariant
            index <= chars.len(),
            text@ == old(text)@ + swapped(chars@, from, to).take(index as int),
        decreases chars.len() - index,
    {
        let c = chars[index];
        push_char(
            text,
            if c == from {
                to
            } else {
                c
            },
        );
        assert(swapped(chars@, from, to).take(index + 1) == swapped(chars@, from, to).take(
            index as int,
        ).push(swapped(chars@, from, to)[index as int]));
        index = index + 1;
    }
    assert(swapped(chars@, from, to).take(index as int) == swapped(chars@, from, to));
}

/// Decides `listed_name`.
pub fn list_name(lower: &str) -> (name: String)
    ensures
        name@ == listed_name(lower@),
{
    let chars = to_chars(lower);
    let prefix = to_chars("clippy::");
    proof {
        reveal_strlit("clippy::");
        assert(chars@.subrange(0, chars@.len() as int) == chars@);
    }
    let mut name = String::new();
    if !starts_with(&chars, 0, chars.len(), &prefix) {
        push_swapped(&mut name, &prefix, '_', '-');
        assert(swapped(prefix@, '_', '-') =~= prefix@);
    }
    push_swapped(&mut name, &chars, '_', '-');
    assert(name@ =~= listed_name(lower@));
    name
}

/// The name under which Clippy lists the lint that `arg` asks for.
pub fn format_lint_name(arg: &str) -> (name: String)
    ensures
        name@ == listed_name(lowercased(arg@)),
{
    let lower = to_lowercase(arg);
    list_name(lower.as_str())
}

/// The name under which a lint is passed to Clippy, from the name under
/// which Clippy lists it: with underscores for hyphens.
pub fn lint_flag_name(listed: &str) -> (name: String)
    ensures
        name@ == swapped(listed@, '-', '_'),
{
    let chars = to_chars(listed);
    let mut name = String::new();
    push_swapped(&mut name, &chars, '-', '_');
    assert(Seq::<char>::empty() + swapped(chars@, '-', '_') == swapped(chars@, '-', '_'));
    name
}

/// Lints asked for: the name under which Clippy lists each, and the name
/// as it was given.
pub open spec fn pairs(list: Seq<(String, String)>) -> Seq<(Seq<char>, Seq<char>)> {
    list.map_values(|pair: (String, String)| (pair.0@, pair.1@))
}

/// The list with `value` noted under `key`: in place of what was noted
/// under that key, or else behind the last key that comes before it.
pub open spec fn noted(list: Seq<(Seq<char>, Seq<char>)>, key: Seq<char>, value: Seq<char>) -> Seq<
    (Seq<char>, Seq<char>),
>
    decreases list.len(),
{
    if list.len() == 0 {
        seq![(key, value)]
    } else if list.last().0 == key {
        list.drop_last().push((key, value))
    } else if text_before(list.last().0, key) {
        list.push((key, value))
    } else {
        noted(list.drop_last(), key, value).push(list.last())
    }
}

/// Notes `value` under `key`.
pub fn note(list: &mut Vec<(String, String)>, key: String, value: String)
    ensures
        pairs(final(list)@) == noted(pairs(old(list)@), key@, value@),
{
    let ghost all = pairs(list@);
    let mut slot = list.len();
    proof {
        assert(all.take(slot as int) == all);
        assert(noted(all, key@, value@) + all.skip(slot as int) == noted(all, key@, value@));
    }
    while slot > 0 && !at_or_before(list[slot - 1].0.as_str(), key.as_str())
        invariant
            slot <= list.len(),
            *list == *old(list),
            all == pairs(list@),
            noted(all, key@, value@) == noted(all.take(slot as int), key@, value@) + all.skip(
                slot as int,
            ),
        decreases slot,
    {
        proof {
            let front = all.take(slot as int);
            assert(front.last() == all[slot - 1]);
            assert(front.drop_last() == all.take(slot - 1));
            assert(noted(front.drop_last(), key@, value@).push(front.last()) + all.skip(
                slot as int,
            ) == noted(front.drop_last(), key@, value@) + all.skip(slot - 1));
        }
        slot = slot - 1;
    }
    let ghost front = all.take(slot as int);
    if slot > 0 && same_text(list[slot - 1].0.as_str(), key.as_str()) {
        list.set(slot - 1, (key, value));
        proof {
            assert(front.last() == all[slot - 1]);
            assert(pairs(list@) =~= front.drop_last().push((key@, value@)) + all.skip(slot as int));
        }
    } else {
        proof {
            if slot > 0 {
                assert(front.last() == all[slot - 1]);
            }
            assert(noted(front, key@, value@) == front.push((key@, value@)));
        }
        list.insert(slot, (key, value));
        assert(pairs(list@) =~= front.push((key@, value@)) + all.skip(slot as int));
    }
}

/// Whether something is noted under `key`.
pub open spec fn holds(list: Seq<(Seq<char>, Seq<char>)>, key: Seq<char>) -> bool {
    exists|i: int| 0 <= i < list.len() && (#[trigger] list[i]).0 == key
}

/// The list without what is noted last under `key`.
pub open spec fn struck(list: Seq<(Seq<char>, Seq<char>)>, key: Seq<char>) -> Seq<
    (Seq<char>, Seq<char>),
>
    decreases list.len(),
{
    if list.len() == 0 {
        list
    } else if list.last().0 == key {
        list.drop_last()
    } else {
        struck(list.drop_last(), key).push(list.last())
    }
}

/// Strikes what is noted under `key`, and says whether there was
/// anything.
pub fn strike(list: &mut Vec<(String, String)>, key: &str) -> (was_there: bool)
    ensures
        pairs(final(list)@) == struck(pairs(old(list)@), key@),
        was_there == holds(pairs(old(list)@), key@),
{
    let ghost all = pairs(list@);
    let mut slot = list.len();
    proof {
        assert(all.take(slot as int) == all);
        assert(struck(all, key@) + all.skip(slot as int) == struck(all, key@));
    }
    while slot > 0 && !same_text(list[slot - 1].0.as_str(), key)
        invariant
            slot <= list.len(),
            *list == *old(list),
            all == pairs(list@),
            struck(all, key@) == struck(all.take(slot as int), key@) + all.skip(slot as int),
            forall|i: int| slot <= i < all.len() ==> (#[trigger] all[i]).0 != key@,
        decreases slot,
    {
        proof {
            let front = all.take(slot as int);
            assert(front.last() == all[slot - 1]);
            assert(front.drop_last() == all.take(slot - 1));
            assert(struck(front.drop_last(), key@).push(front.last()) + all.skip(slot as int)
                == struck(front.drop_last(), key@) + all.skip(slot - 1));
        }
        slot = slot - 1;
    }
    let ghost front = all.take(slot as int);
    if slot > 0 {
        proof {
            assert(front.last() == all[slot - 1]);
            assert(all[slot - 1].0 == key@);
        }
        list.remove(slot - 1);
        assert(pairs(list@) =~= front.drop_last() + all.skip(slot as int));
        true
    } else {
        assert(front =~= Seq::empty());
        assert(struck(all, key@) =~= all);
        false
    }
}

/// Whether `char::is_whitespace` holds of a character.
pub uninterp spec fn white(c: char) -> bool;

/// `char::is_whitespace`: whether the character has the Unicode property
/// `White_Space`. The contract claims only that the answer is a function
/// of the character.
#[verifier::external_body]
pub(crate) fn is_whitespace(c: char) -> (r: bool)
    ensures
        r == white(c),
{
    c.is_whitespace()
}

/// The first index from `from` on, before `to`, at which no whitespace
/// stands; `to` if there is none.
pub open spec fn word_start(text: Seq<char>, from: int, to: int) -> int
    decreases to - from,
{
    if from >= to {
        to
    } else if !white(text[from]) {
        from
    } else {
        word_start(text, from + 1, to)
    }
}

/// The first index from `from` on, before `to`, at which whitespace
/// stands; `to` if there is none.
pub open spec fn word_end(text: Seq<char>, from: int, to: int) -> int
    decreases to - from,
{
    if from >= to {
        to
    } else if white(text[from]) {
        from
    } else {
        word_end(text, from + 1, to)
    }
}

/// The first word between `from` and `to`, if there is one: what stands
/// between the whitespace before it and the whitespace after it.
pub open spec fn first_word(text: Seq<char>, from: int, to: int) -> Seq<Seq<char>> {
    let start = word_start(text, from, to);
    if start < to {
        seq![text.subrange(start, word_end(text, start, to))]
    } else {
        Seq::empty()
    }
}

/// Appends the first word between `from` and `to`, if there is one.
pub fn push_first_word(words: &mut Vec<String>, chars: &Vec<char>, from: usize, to: usize)
    requires
        from <= to <= chars.len(),
    ensures
        texts(final(words)@) == texts(old(words)@) + first_word(chars@, from as int, to as int),
{
    let mut start = from;
    while start < to && is_whitespace(chars[start])
        invariant
            from <= start <= to <= chars.len(),
            word_start(chars@, from as int, to as int) == word_start(
                chars@,
                start as int,
                to as int,
            ),
        decreases to - start,
    {
        start = start + 1;
    }
    if start == to {
        assert(texts(words@) + Seq::<Seq<char>>::empty() == texts(words@));
        return;
    }
    let mut end = start;
    while end < to && !is_whitespace(chars[end])
        invariant
            start <= end <= to <= chars.len(),
            word_end(chars@, start as int, to as int) == word_end(chars@, end as int, to as int),
        decreases to - end,
    {
        end = end + 1;
    }
    let word = text_between(chars, start, end);
    words.push(word);
    assert(texts(words@) =~= texts(old(words)@) + seq![chars@.subrange(start as int, end as int)]);
}

/// The line under which Clippy's help lists its lints.
pub open spec fn lints_heading() -> Seq<char> {
    "Lint checks provided by plugins"@
}

/// The line under which Clippy's help lists its groups of lints.
pub open spec fn groups_heading() -> Seq<char> {
    "Lint groups provided by plugins"@
}

/// Where the line after the one that starts at `start` begins: behind the
/// line break, or at the end of the text where no line follows.
pub open spec fn next_line(text: Seq<char>, start: int) -> int {
    let end = line_end(text, start);
    if start <= end < text.len() {
        end + 1
    } else {
        text.len() as int
    }
}

/// The lints that Clippy's help lists, read from the line at `start` on:
/// the first word of each line after the one that starts with the heading
/// of the lints, up to the line that starts with the heading of the
/// groups. `inside` says whether the heading of the lints has been passed.
pub open spec fn listed_from(text: Seq<char>, start: int, inside: bool) -> Seq<Seq<char>>
    decreases text.len() - start,
{
    if start < 0 || start >= text.len() {
        Seq::empty()
    } else {
        let end = line_end(text, start);
        let line = text.subrange(start, end);
        if !inside {
            listed_from(text, next_line(text, start), lints_heading().is_prefix_of(line))
        } else if groups_heading().is_prefix_of(line) {
            Seq::empty()
        } else {
            first_word(text, start, end) + listed_from(text, next_line(text, start), true)
        }
    }
}

/// The lints that Clippy's help lists.
pub open spec fn listed_lints(help: Seq<char>) -> Seq<Seq<char>> {
    listed_from(help, 0, false)
}

/// Reads the lints that Clippy's help lists.
pub fn lints_in_help(help: &str) -> (listed: Vec<String>)
    ensures
        texts(listed@) == listed_lints(help@),
{
    let chars = to_chars(help);
    let lints = to_chars("Lint checks provided by plugins");
    let groups = to_chars("Lint groups provided by plugins");
    let mut listed: Vec<String> = Vec::new();
    let mut inside = false;
    let mut done = false;
    let mut start: usize = 0;
    assert(texts(listed@) =~= Seq::empty());
    assert(texts(listed@) + listed_from(chars@, 0, false) == listed_lints(help@));
    while start < chars.len() && !done
        invariant
            start <= chars.len(),
            chars@ == help@,
            lints@ == lints_heading(),
            groups@ == groups_heading(),
            !done ==> texts(listed@) + listed_from(chars@, start as int, inside) == listed_lints(
                help@,
            ),
            done ==> texts(listed@) == listed_lints(help@),
        decreases chars.len() - start + if done { 0int } else { 1 },
    {
        let mut end = start;
        while end < chars.len() && chars[end] != '\n'
            invariant
                start <= end <= chars.len(),
                line_end(chars@, start as int) == line_end(chars@, end as int),
            decreases chars.len() - end,
        {
            end = end + 1;
        }
        proof {
            lemma_line_end_bounds(chars@, start as int);
            assert(line_end(chars@, start as int) == end);
        }
        let ghost before = texts(listed@);
        if !inside {
            inside = starts_with(&chars, start, end, &lints);
        } else if starts_with(&chars, start, end, &groups) {
            done = true;
            assert(before + Seq::<Seq<char>>::empty() == before);
        } else {
            push_first_word(&mut listed, &chars, start, end);
            assert(before + (first_word(chars@, start as int, end as int) + listed_from(
                chars@,
                next_line(chars@, start as int),
                true,
            )) == before + first_word(chars@, start as int, end as int) + listed_from(
                chars@,
                next_line(chars@, start as int),
                true,
            ));
        }
        if end < chars.len() {
            start = end + 1;
        } else {
            start = end;
        }
    }
    proof {
        if !done {
            assert(texts(listed@) + Seq::<Seq<char>>::empty() == texts(listed@));
        }
    }
    listed
}

/// The lints asked for by `args`, each noted under the name under which
/// Clippy lists it; of two that come to the same name the later stays.
pub open spec fn requested(args: Seq<String>) -> Seq<(Seq<char>, Seq<char>)>
    decreases args.len(),
{
    if args.len() == 0 {
        Seq::empty()
    } else {
        noted(requested(args.drop_last()), listed_name(lowercased(args.last()@)), args.last()@)
    }
}

/// The lints among `wanted` that are listed, in the order of the listing
/// and under the names by which they are passed to Clippy.
pub open spec fn found(listed: Seq<Seq<char>>, wanted: Seq<(Seq<char>, Seq<char>)>) -> Seq<
    Seq<char>,
>
    decreases listed.len(),
{
    if listed.len() == 0 {
        Seq::empty()
    } else if holds(wanted, listed[0]) {
        seq![swapped(listed[0], '-', '_')] + found(listed.drop_first(), struck(wanted, listed[0]))
    } else {
        found(listed.drop_first(), wanted)
    }
}

/// What is left of `wanted` once everything listed is struck.
pub open spec fn left_over(listed: Seq<Seq<char>>, wanted: Seq<(Seq<char>, Seq<char>)>) -> Seq<
    (Seq<char>, Seq<char>),
>
    decreases listed.len(),
{
    if listed.len() == 0 {
        wanted
    } else {
        left_over(listed.drop_first(), struck(wanted, listed[0]))
    }
}

/// The names of `missing` as they were given, each in backticks, with a
/// comma and a blank between them.
pub open spec fn quoted_names(missing: Seq<(Seq<char>, Seq<char>)>) -> Seq<char>
    decreases missing.len(),
{
    if missing.len() == 0 {
        Seq::empty()
    } else if missing.len() == 1 {
        seq!['`'] + missing[0].1 + seq!['`']
    } else {
        quoted_names(missing.drop_last()) + ", `"@ + missing.last().1 + seq!['`']
    }
}

/// What is said when lints are not found.
pub open spec fn not_found_message(missing: Seq<(Seq<char>, Seq<char>)>) -> Seq<char> {
    "Lints not found: "@ + quoted_names(missing)
}

/// What checking the lints `wanted` against those listed comes to.
pub open spec fn lint_check(listed: Seq<Seq<char>>, wanted: Seq<(Seq<char>, Seq<char>)>) -> Result<
    Seq<Seq<char>>,
    Seq<char>,
> {
    if left_over(listed, wanted).len() == 0 {
        Ok(found(listed, wanted))
    } else {
        Err(not_found_message(left_over(listed, wanted)))
    }
}

/// Whether the outcome of a check is the expected one.
pub open spec fn check_is(
    outcome: Result<Vec<String>, String>,
    expected: Result<Seq<Seq<char>>, Seq<char>>,
) -> bool {
    match outcome {
        Ok(lints) => expected == Ok::<Seq<Seq<char>>, Seq<char>>(texts(lints@)),
        Err(message) => expected == Err::<Seq<Seq<char>>, Seq<char>>(message@),
    }
}

/// Writes out what is said when lints are not found.
pub fn write_not_found(missing: &Vec<(String, String)>) -> (message: String)
    ensures
        message@ == not_found_message(pairs(missing@)),
{
    let mut message = String::from_str("Lints not found: ");
    let ghost head = message@;
    let mut index: usize = 0;
    assert(pairs(missing@).take(0) =~= Seq::empty());
    assert(head + quoted_names(pairs(missing@).take(0)) == head);
    while index < missing.len()
        invariant
            index <= missing.len(),
            message@ == head + quoted_names(pairs(missing@).take(index as int)),
        decreases missing.len() - index,
    {
        proof {
            let upto = pairs(missing@).take(index + 1);
            assert(upto.drop_last() == pairs(missing@).take(index as int));
            assert(upto.last().1 == missing@[index as int].1@);
            if index == 0 {
                assert(upto[0] == upto.last());
                assert(quoted_names(upto.drop_last()) == Seq::<char>::empty());
            }
        }
        let ghost before = message@;
        if index > 0 {
            message.append(", ");
        }
        push_char(&mut message, '`');
        message.append(missing[index].1.as_str());
        push_char(&mut message, '`');
        proof {
            reveal_strlit(", ");
            reveal_strlit(", `");
            let name = missing@[index as int].1@;
            if index > 0 {
                assert(message@ =~= before + ", `"@ + name + seq!['`']);
            } else {
                assert(message@ =~= before + (seq!['`'] + name + seq!['`']));
            }
        }
        index = index + 1;
    }
    assert(pairs(missing@).take(index as int) == pairs(missing@));
    message
}

/// Checks the lints asked for against those that Clippy lists. Where all
/// are listed, returns their names as they are passed to Clippy, in the
/// order of the listing; else says which are not found.
pub fn match_lint_names(lint_args: &Vec<String>, listed: &Vec<String>) -> (outcome: Result<
    Vec<String>,
    String,
>)
    ensures
        check_is(outcome, lint_check(texts(listed@), requested(lint_args@))),
{
    let mut wanted: Vec<(String, String)> = Vec::new();
    let mut index: usize = 0;
    assert(pairs(wanted@) =~= requested(lint_args@.take(0)));
    while index < lint_args.len()
        invariant
            index <= lint_args.len(),
            pairs(wanted@) == requested(lint_args@.take(index as int)),
        decreases lint_args.len() - index,
    {
        proof {
            let upto = lint_args@.take(index + 1);
            assert(upto.drop_last() == lint_args@.take(index as int));
            assert(upto.last() == lint_args@[index as int]);
        }
        let name = format_lint_name(lint_args[index].as_str());
        note(&mut wanted, name, lint_args[index].clone());
        index = index + 1;
    }
    assert(lint_args@.take(index as int) == lint_args@);
    let ghost all = texts(listed@);
    let ghost asked = pairs(wanted@);
    let mut lints: Vec<String> = Vec::new();
    let mut line: usize = 0;
    proof {
        assert(all.skip(0) == all);
        assert(texts(lints@) =~= Seq::empty());
        assert(texts(lints@) + found(all, asked) == found(all, asked));
    }
    while line < listed.len()
        invariant
            line <= listed.len(),
            all == texts(listed@),
            texts(lints@) + found(all.skip(line as int), pairs(wanted@)) == found(all, asked),
            left_over(all.skip(line as int), pairs(wanted@)) == left_over(all, asked),
        decreases listed.len() - line,
    {
        proof {
            assert(all.skip(line as int).drop_first() == all.skip(line + 1));
            assert(all.skip(line as int)[0] == listed@[line as int]@);
        }
        let ghost before = texts(lints@);
        let ghost rest = pairs(wanted@);
        if strike(&mut wanted, listed[line].as_str()) {
            lints.push(lint_flag_name(listed[line].as_str()));
            proof {
                let name = swapped(listed@[line as int]@, '-', '_');
                assert(texts(lints@) =~= before.push(name));
                assert(before.push(name) + found(all.skip(line + 1), pairs(wanted@)) == before + (
                seq![name] + found(all.skip(line + 1), pairs(wanted@))));
            }
        } else {
            proof {
                lemma_struck_absent(rest, listed@[line as int]@);
            }
        }
        line = line + 1;
    }
    proof {
        assert(all.skip(line as int) =~= Seq::empty());
        assert(texts(lints@) + Seq::<Seq<char>>::empty() == texts(lints@));
    }
    if wanted.len() == 0 {
        Ok(lints)
    } else {
        Err(write_not_found(&wanted))
    }
}

/// Striking a key that nothing is noted under changes nothing.
pub proof fn lemma_struck_absent(list: Seq<(Seq<char>, Seq<char>)>, key: Seq<char>)
    requires
        !holds(list, key),
    ensures
        struck(list, key) == list,
    decreases list.len(),
{
    if list.len() > 0 {
        assert(list[list.len() - 1].0 != key);
        assert forall|i: int| 0 <= i < list.drop_last().len() implies (#[trigger] list.drop_last()[i]).0
            != key by {
            assert(list[i].0 != key);
        }
        lemma_struck_absent(list.drop_last(), key);
        assert(list.drop_last().push(list.last()) == list);
    }
}

/// Checks the lints asked for against Clippy's help. Where Clippy knows
/// them all, returns their names as they are passed to Clippy, in the
/// order in which the help lists them; else says which are not found.
pub fn check_and_format_lint_names(lint_args: &Vec<String>, help: &str) -> (outcome: Result<
    Vec<String>,
    String,
>)
    ensures
        check_is(outcome, lint_check(listed_lints(help@), requested(lint_args@))),
{
    let listed = lints_in_help(help);
    match_lint_names(lint_args, &listed)
}

} // verus!
