//! The line that shows a found string: its address and its text.

use vstd::prelude::*;
use vstd::string::*;

verus! {

/// The digit that stands for `value` in upper-case hexadecimal.
pub open spec fn hex_digit(value: int) -> char {
    if value == 0 {
        '0'
    } else if value == 1 {
        '1'
    } else if value == 2 {
        '2'
    } else if value == 3 {
        '3'
    } else if value == 4 {
        '4'
    } else if value == 5 {
        '5'
    } else if value == 6 {
        '6'
    } else if value == 7 {
        '7'
    } else if value == 8 {
        '8'
    } else if value == 9 {
        '9'
    } else if value == 10 {
        'A'
    } else if value == 11 {
        'B'
    } else if value == 12 {
        'C'
    } else if value == 13 {
        'D'
    } else if value == 14 {
        'E'
    } else {
        'F'
    }
}

/// `number` in upper-case hexadecimal, without leading zeros.
pub open spec fn hex_digits(number: nat) -> Seq<char>
    decreases number,
{
    if number < 16 {
        seq![hex_digit(number as int)]
    } else {
        hex_digits(number / 16).push(hex_digit((number % 16) as int))
    }
}

/// What `{:?}` makes of the string `text`: the text between double quotes,
/// with escape sequences in place of the quotes, backslashes, control
/// characters and other unprintable characters in it.
pub uninterp spec fn debug_quoted(text: Seq<char>) -> Seq<char>;

/// The line for a string at `address` whose quoted text is `quoted`.
pub open spec fn entry_text(address: nat, quoted: Seq<char>) -> Seq<char> {
    seq!['0', 'x'] + hex_digits(address) + seq![' '] + quoted
}

/// Formats `text` with `{:?}`, the `Debug` form of a string.
///
/// Trusted: the result is the one that `debug_quoted` names. It is a function
/// of `text` alone.
#[verifier::external_body]
pub(crate) fn quote(text: &str) -> (quoted: String)
    ensures
        quoted@ == debug_quoted(text@),
{
    format!("{:?}", text)
}

/// The upper-case hexadecimal digit for `value`, as a string of one
/// character.
pub fn hex_digit_text(value: usize) -> (digit: &'static str)
    requires
        value < 16,
    ensures
        digit@ == seq![hex_digit(value as int)],
{
    proof {
        reveal_strlit("0");
        reveal_strlit("1");
        reveal_strlit("2");
        reveal_strlit("3");
        reveal_strlit("4");
        reveal_strlit("5");
        reveal_strlit("6");
        reveal_strlit("7");
        reveal_strlit("8");
        reveal_strlit("9");
        reveal_strlit("A");
        reveal_strlit("B");
        reveal_strlit("C");
        reveal_strlit("D");
        reveal_strlit("E");
        reveal_strlit("F");
    }
    let digit = if value == 0 {
        "0"
    } else if value == 1 {
        "1"
    } else if value == 2 {
        "2"
    } else if value == 3 {
        "3"
    } else if value == 4 {
        "4"
    } else if value == 5 {
        "5"
    } else if value == 6 {
        "6"
    } else if value == 7 {
        "7"
    } else if value == 8 {
        "8"
    } else if value == 9 {
        "9"
    } else if value == 10 {
        "A"
    } else if value == 11 {
        "B"
    } else if value == 12 {
        "C"
    } else if value == 13 {
        "D"
    } else if value == 14 {
        "E"
    } else {
        "F"
    };
    assert(digit@ =~= seq![hex_digit(value as int)]);
    digit
}

/// Writes `number` in upper-case hexadecimal, without leading zeros.
pub fn upper_hex(number: usize) -> (text: String)
    ensures
        text@ == hex_digits(number as nat),
    decreases number,
{
    if number < 16 {
        hex_digit_text(number).to_owned()
    } else {
        let mut text = upper_hex(number / 16);
        text.append(hex_digit_text(number % 16));
        assert(text@ =~= hex_digits(number as nat));
        text
    }
}

/// Puts together the line for a string at `address` whose quoted text is
/// `quoted`: `0x`, the address in upper-case hexadecimal, a space, and the
/// quoted text.
pub fn entry_line(address: usize, quoted: &str) -> (line: String)
    ensures
        line@ == entry_text(address as nat, quoted@),
{
    proof {
        reveal_strlit("0x");
        reveal_strlit(" ");
    }
    let mut line = "0x".to_owned();
    line.append(upper_hex(address).as_str());
    line.append(" ");
    line.append(quoted);
    assert(line@ =~= entry_text(address as nat, quoted@));
    line
}

/// The line for the string `shown` at `address`, with `shown` quoted.
pub fn entry(address: usize, shown: &str) -> (line: String)
    ensures
        line@ == entry_text(address as nat, debug_quoted(shown@)),
{
    let quoted = quote(shown);
    entry_line(address, quoted.as_str())
}

} // verus!
