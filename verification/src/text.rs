//! Building text: characters appended to a `String`, integers in decimal, and
//! the line that reports a lexical error.

use vstd::prelude::*;
use vstd::string::*;

verus! {

/// `String::push` appends one character to the end of the string.
pub assume_specification[ std::string::String::push ](s: &mut std::string::String, c: char)
    ensures
        final(s)@ == old(s)@.push(c),
;

/// The character that writes the digit `d`, for `0 <= d <= 9`.
pub open spec fn digit_char(d: int) -> char {
    ((d + 48) as u8) as char
}

/// The decimal digits of `n`, most significant first, without leading zeros.
pub open spec fn natural_text(n: nat) -> Seq<char>
    decreases n,
{
    if n < 10 {
        seq![digit_char(n as int)]
    } else {
        natural_text(n / 10).push(digit_char((n % 10) as int))
    }
}

/// The decimal text of `n`, with a leading `-` when `n` is negative.
pub open spec fn integer_text(n: int) -> Seq<char> {
    if n < 0 {
        seq!['-'] + natural_text((-n) as nat)
    } else {
        natural_text(n as nat)
    }
}

/// The line that reports `message` for source line `line`, with `location`
/// between the word `Error` and the colon.
pub open spec fn report_text(line: int, location: Seq<char>, message: Seq<char>) -> Seq<char> {
    "[line "@ + integer_text(line) + "] Error"@ + location + ": "@ + message
}

fn digit_to_char(d: u64) -> (c: char)
    requires
        d < 10,
    ensures
        c == digit_char(d as int),
{
    if d == 0 {
        '0'
    } else if d == 1 {
        '1'
    } else if d == 2 {
        '2'
    } else if d == 3 {
        '3'
    } else if d == 4 {
        '4'
    } else if d == 5 {
        '5'
    } else if d == 6 {
        '6'
    } else if d == 7 {
        '7'
    } else if d == 8 {
        '8'
    } else {
        '9'
    }
}

fn push_natural(s: &mut String, n: u64)
    ensures
        final(s)@ == old(s)@ + natural_text(n as nat),
    decreases n,
{
    if n >= 10 {
        push_natural(s, n / 10);
    }
    s.push(digit_to_char(n % 10));
}

/// Appends the decimal text of `n` to `s`.
pub fn push_integer(s: &mut String, n: i64)
    ensures
        final(s)@ == old(s)@ + integer_text(n as int),
{
    if n < 0 {
        s.push('-');
        let magnitude: u64 = ((-(n + 1)) as u64) + 1;
        push_natural(s, magnitude);
    } else {
        push_natural(s, n as u64);
    }
}

/// The decimal text of `n`.
pub fn integer_to_string(n: i64) -> (s: String)
    ensures
        s@ == integer_text(n as int),
{
    let mut s = String::new();
    push_integer(&mut s, n);
    s
}

/// Renders the report of `message` at `line`.
pub fn report(line: i64, location: String, message: String) -> (s: String)
    ensures
        s@ == report_text(line as int, location@, message@),
{
    let mut s = String::from_str("[line ");
    push_integer(&mut s, line);
    s.append("] Error");
    s.append(location.as_str());
    s.append(": ");
    s.append(message.as_str());
    s
}

} // verus!
