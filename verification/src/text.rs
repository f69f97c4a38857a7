//! Small helpers on text.

use vstd::prelude::*;
use vstd::std_specs::iter::IteratorSpec;

verus! {

/// Whether two pieces of text hold the same characters.
pub fn same_text(left: &str, right: &str) -> (same: bool)
    ensures
        same == (left@ == right@),
{
    let mut left_chars = left.chars();
    let mut right_chars = right.chars();
    let ghost mut index: int = 0;
    loop
        invariant
            0 <= index <= left@.len(),
            index <= right@.len(),
            left_chars.remaining() == left@.skip(index),
            right_chars.remaining() == right@.skip(index),
            left@.take(index) == right@.take(index),
        decreases left@.len() - index,
    {
        let a = left_chars.next();
        let b = right_chars.next();
        match (a, b) {
            (None, None) => {
                proof {
                    assert(left@.take(index) == left@);
                    assert(right@.take(index) == right@);
                }
                return true;
            },
            (Some(x), Some(y)) => {
                if x != y {
                    assert(left@[index] != right@[index]);
                    return false;
                }
                proof {
                    assert(left@.skip(index).drop_first() == left@.skip(index + 1));
                    assert(right@.skip(index).drop_first() == right@.skip(index + 1));
                    assert(left@.take(index + 1) == left@.take(index).push(x));
                    assert(right@.take(index + 1) == right@.take(index).push(y));
                    index = index + 1;
                }
            },
            _ => {
                assert(left@.len() != right@.len());
                return false;
            },
        }
    }
}

/// `String::push`: appends one character to the end of the string.
#[verifier::external_body]
pub(crate) fn push_char(text: &mut String, c: char)
    ensures
        final(text)@ == old(text)@.push(c),
{
    text.push(c);
}

/// The character `c` written `count` times.
pub open spec fn repeated(c: char, count: nat) -> Seq<char> {
    Seq::new(count, |i: int| c)
}

/// Appends `count` copies of `c`.
pub fn push_repeated(text: &mut String, c: char, count: usize)
    ensures
        final(text)@ == old(text)@ + repeated(c, count as nat),
{
    let mut written: usize = 0;
    assert(text@ + repeated(c, 0) == text@);
    while written < count
        invariant
            written <= count,
            text@ == old(text)@ + repeated(c, written as nat),
        decreases count - written,
    {
        push_char(text, c);
        written = written + 1;
        assert(text@ == old(text)@ + repeated(c, written as nat));
    }
}

/// The character that writes the digit `value`.
pub open spec fn digit_char(value: nat) -> char {
    if value == 0 {
        '0'
    } else if value == 1 {
        '1'
    } else if value == 2 {
        '2'
    } else if value == 3 {
        '3'
    } else if value == 4 {
        '4'
    } else if value == 5 {
        '5'
    } else if value == 6 {
        '6'
    } else if value == 7 {
        '7'
    } else if value == 8 {
        '8'
    } else {
        '9'
    }
}

/// Decides `digit_char`.
pub fn digit(value: usize) -> (c: char)
    requires
        value < 10,
    ensures
        c == digit_char(value as nat),
{
    if value == 0 {
        '0'
    } else if value == 1 {
        '1'
    } else if value == 2 {
        '2'
    } else if value == 3 {
        '3'
    } else if value == 4 {
        '4'
    } else if value == 5 {
        '5'
    } else if value == 6 {
        '6'
    } else if value == 7 {
        '7'
    } else if value == 8 {
        '8'
    } else {
        '9'
    }
}

/// A number written in decimal, without sign, separators or leading zeros.
pub open spec fn decimal(value: nat) -> Seq<char>
    decreases value,
{
    if value < 10 {
        seq![digit_char(value)]
    } else {
        decimal(value / 10).push(digit_char(value % 10))
    }
}

/// How many decimal digits a number has; zero has none.
pub open spec fn digit_count(value: nat) -> nat
    decreases value,
{
    if value == 0 {
        0
    } else {
        1 + digit_count(value / 10)
    }
}

/// A number that fits a machine word has at most twenty digits.
pub proof fn lemma_digit_count_bound(value: nat)
    requires
        value <= usize::MAX,
    ensures
        digit_count(value) <= 20,
{
    reveal_with_fuel(digit_count, 22);
}

/// A number other than zero is written with as many characters as it has
/// digits, and zero with one.
pub proof fn lemma_decimal_len(value: nat)
    ensures
        decimal(value).len() == if value == 0 {
            1
        } else {
            digit_count(value)
        },
    decreases value,
{
    if value >= 10 {
        lemma_decimal_len(value / 10);
    } else if value > 0 {
        assert(digit_count(value / 10) == 0);
    }
}

/// Appends `value` in decimal.
pub fn push_decimal(text: &mut String, value: usize)
    ensures
        final(text)@ == old(text)@ + decimal(value as nat),
{
    let mut digits: Vec<char> = Vec::new();
    let mut rest = value;
    digits.push(digit(rest % 10));
    rest = rest / 10;
    assert(digits@.reverse() == seq![digit_char((value % 10) as nat)]);
    while rest > 0
        invariant
            digits.len() > 0,
            decimal(value as nat) == if rest > 0 {
                decimal(rest as nat) + digits@.reverse()
            } else {
                digits@.reverse()
            },
        decreases rest,
    {
        let ghost before = digits@;
        digits.push(digit(rest % 10));
        proof {
            assert(digits@.reverse() == seq![digit_char((rest % 10) as nat)] + before.reverse());
            if rest >= 10 {
                assert(decimal(rest as nat) + before.reverse() == decimal((rest / 10) as nat)
                    + digits@.reverse());
            }
        }
        rest = rest / 10;
    }
    let mut left = digits.len();
    assert(text@ + digits@.reverse().take(0) == text@);
    while left > 0
        invariant
            left <= digits.len(),
            text@ == old(text)@ + digits@.reverse().take(digits.len() - left),
        decreases left,
    {
        left = left - 1;
        push_char(text, digits[left]);
        assert(digits@.reverse().take(digits.len() - left) == digits@.reverse().take(
            digits.len() - left - 1,
        ).push(digits@[left as int]));
    }
    assert(digits@.reverse().take(digits.len() as int) == digits@.reverse());
}

/// The characters of a text, one by one.
pub fn to_chars(text: &str) -> (chars: Vec<char>)
    ensures
        chars@ == text@,
{
    let mut chars: Vec<char> = Vec::new();
    let mut rest = text.chars();
    let ghost mut index: int = 0;
    assert(text@.take(0) == Seq::<char>::empty());
    loop
        invariant
            0 <= index <= text@.len(),
            rest.remaining() == text@.skip(index),
            chars@ == text@.take(index),
        decreases text@.len() - index,
    {
        match rest.next() {
            Some(c) => {
                chars.push(c);
                proof {
                    assert(text@.skip(index).drop_first() == text@.skip(index + 1));
                    assert(text@.take(index + 1) == text@.take(index).push(c));
                    index = index + 1;
                }
            },
            None => {
                assert(text@.take(index) == text@);
                return chars;
            },
        }
    }
}

/// The text made of the characters from `from` up to `to`.
pub fn text_between(chars: &Vec<char>, from: usize, to: usize) -> (text: String)
    requires
        from <= to <= chars.len(),
    ensures
        text@ == chars@.subrange(from as int, to as int),
{
    let mut text = String::new();
    let mut index = from;
    assert(chars@.subrange(from as int, from as int) == Seq::<char>::empty());
    while index < to
        invariant
            from <= index <= to <= chars.len(),
            text@ == chars@.subrange(from as int, index as int),
        decreases to - index,
    {
        push_char(&mut text, chars[index]);
        assert(chars@.subrange(from as int, index + 1) == chars@.subrange(
            from as int,
            index as int,
        ).push(chars@[index as int]));
        index = index + 1;
    }
    text
}

/// Whether `left` comes before `right` in the order of a dictionary that
/// goes by the characters' code points.
pub open spec fn text_before(left: Seq<char>, right: Seq<char>) -> bool
    decreases left.len(),
{
    if right.len() == 0 {
        false
    } else if left.len() == 0 {
        true
    } else if left[0] != right[0] {
        (left[0] as u32) < (right[0] as u32)
    } else {
        text_before(left.drop_first(), right.drop_first())
    }
}

/// Decides `text_before`.
pub fn comes_before(left: &str, right: &str) -> (before: bool)
    ensures
        before == text_before(left@, right@),
{
    let mut left_chars = left.chars();
    let mut right_chars = right.chars();
    let ghost mut index: int = 0;
    assert(left@.skip(0) == left@ && right@.skip(0) == right@);
    loop
        invariant
            0 <= index <= left@.len(),
            index <= right@.len(),
            left_chars.remaining() == left@.skip(index),
            right_chars.remaining() == right@.skip(index),
            text_before(left@, right@) == text_before(left@.skip(index), right@.skip(index)),
        decreases left@.len() - index,
    {
        let a = left_chars.next();
        let b = right_chars.next();
        match (a, b) {
            (_, None) => {
                return false;
            },
            (None, Some(_)) => {
                return true;
            },
            (Some(x), Some(y)) => {
                if x != y {
                    return (x as u32) < (y as u32);
                }
                proof {
                    assert(left@.skip(index).drop_first() == left@.skip(index + 1));
                    assert(right@.skip(index).drop_first() == right@.skip(index + 1));
                    index = index + 1;
                }
            },
        }
    }
}

/// Whether `text` starts with `prefix`.
pub fn starts_with(text: &Vec<char>, from: usize, to: usize, prefix: &Vec<char>) -> (r: bool)
    requires
        from <= to <= text.len(),
    ensures
        r == prefix@.is_prefix_of(text@.subrange(from as int, to as int)),
{
    let ghost line = text@.subrange(from as int, to as int);
    if prefix.len() > to - from {
        return false;
    }
    let mut index: usize = 0;
    while index < prefix.len()
        invariant
            index <= prefix.len() <= to - from,
            from <= to <= text.len(),
            line == text@.subrange(from as int, to as int),
            forall|i: int| 0 <= i < index ==> prefix@[i] == line[i],
        decreases prefix.len() - index,
    {
        if prefix[index] != text[from + index] {
            assert(prefix@[index as int] != line[index as int]);
            assert(line.subrange(0, prefix@.len() as int)[index as int] == line[index as int]);
            return false;
        }
        index = index + 1;
    }
    assert(prefix@ =~= line.subrange(0, prefix@.len() as int));
    true
}

/// The characters of each text of a list.
pub open spec fn texts(list: Seq<String>) -> Seq<Seq<char>> {
    list.map_values(|text: String| text@)
}

/// Whether `left` is `right` or comes before it.
pub fn at_or_before(left: &str, right: &str) -> (r: bool)
    ensures
        r == (left@ == right@ || text_before(left@, right@)),
{
    same_text(left, right) || comes_before(left, right)
}

} // verus!
