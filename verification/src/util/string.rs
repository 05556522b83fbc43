//! Text helpers for chat.

use vstd::prelude::*;
use vstd::string::{StrSliceExecFns, StringExecFns};

verus! {

/// Whether a character from U+0080 on is whitespace: whether it has the
/// Unicode property `White_Space`.
pub uninterp spec fn is_wide_whitespace(c: char) -> bool;

/// Whether a character is whitespace: whether it has the Unicode property
/// `White_Space`. Below U+0080 these are the characters U+0009 to U+000D
/// and the space.
pub open spec fn is_whitespace(c: char) -> bool {
    if (c as u32) < 0x80 {
        0x09 <= c as u32 <= 0x0d || c as u32 == 0x20
    } else {
        is_wide_whitespace(c)
    }
}

/// The text without the whitespace at its start.
pub open spec fn trim_start(text: Seq<char>) -> Seq<char>
    decreases text.len(),
{
    if text.len() > 0 && is_whitespace(text[0]) {
        trim_start(text.skip(1))
    } else {
        text
    }
}

/// The text without the whitespace at its end.
pub open spec fn trim_end(text: Seq<char>) -> Seq<char>
    decreases text.len(),
{
    if text.len() > 0 && is_whitespace(text.last()) {
        trim_end(text.drop_last())
    } else {
        text
    }
}

/// The text without the whitespace at its start and at its end.
pub open spec fn trimmed(text: Seq<char>) -> Seq<char> {
    trim_end(trim_start(text))
}

/// The first `max_chars` characters of the text, or all of it where it has
/// no more.
pub open spec fn truncated(text: Seq<char>, max_chars: nat) -> Seq<char> {
    if text.len() <= max_chars {
        text
    } else {
        text.take(max_chars as int)
    }
}

/// `str::trim`: the text without leading and trailing whitespace, where
/// whitespace is what the Unicode property `White_Space` says.
#[verifier::external_body]
pub(crate) fn trim(text: &str) -> (result: &str)
    ensures
        result@ == trimmed(text@),
        result@.len() > 0 && result@[0] as u32 >= 0x80 ==> !is_wide_whitespace(result@[0]),
        result@.len() > 0 && result@.last() as u32 >= 0x80 ==> !is_wide_whitespace(
            result@.last(),
        ),
{
    text.trim()
}

/// The first `max_chars` characters of `text`. A character is a Unicode
/// scalar value.
pub fn truncate(text: &str, max_chars: usize) -> (result: &str)
    ensures
        result@ == truncated(text@, max_chars as nat),
{
    let len: usize = text.unicode_len();
    if len <= max_chars {
        text
    } else {
        text.substring_char(0, max_chars)
    }
}

/// The character of a decimal digit.
pub open spec fn digit_char(digit: nat) -> char {
    if digit == 0 {
        '0'
    } else if digit == 1 {
        '1'
    } else if digit == 2 {
        '2'
    } else if digit == 3 {
        '3'
    } else if digit == 4 {
        '4'
    } else if digit == 5 {
        '5'
    } else if digit == 6 {
        '6'
    } else if digit == 7 {
        '7'
    } else if digit == 8 {
        '8'
    } else {
        '9'
    }
}

/// A number in decimal, without leading zeros.
pub open spec fn decimal_text(n: nat) -> Seq<char>
    decreases n,
{
    if n < 10 {
        seq![digit_char(n)]
    } else {
        decimal_text(n / 10).push(digit_char(n % 10))
    }
}

/// One decimal digit as text.
fn digit(d: u64) -> (text: &'static str)
    requires
        d < 10,
    ensures
        text@ == seq![digit_char(d as nat)],
{
    proof {
        reveal_strlit("0");
        reveal_strlit("1");
        reveal_strlit("2");
        reveal_strlit("3");
        reveal_strlit("4");
        reveal_strlit("5");
        reveal_strlit("6");
        reveal_strlit("7");
        reveal_strlit("8");
        reveal_strlit("9");
    }
    let text: &'static str = if d == 0 {
        "0"
    } else if d == 1 {
        "1"
    } else if d == 2 {
        "2"
    } else if d == 3 {
        "3"
    } else if d == 4 {
        "4"
    } else if d == 5 {
        "5"
    } else if d == 6 {
        "6"
    } else if d == 7 {
        "7"
    } else if d == 8 {
        "8"
    } else {
        "9"
    };
    assert(text@ =~= seq![digit_char(d as nat)]);
    text
}

/// A number in decimal.
pub fn decimal(n: u64) -> (text: String)
    ensures
        text@ == decimal_text(n as nat),
    decreases n,
{
    if n < 10 {
        String::from_str(digit(n))
    } else {
        let mut text: String = decimal(n / 10);
        text.append(digit(n % 10));
        assert(text@ =~= decimal_text(n as nat));
        text
    }
}

} // verus!
