//! Durations as text, for progress reports.

use vstd::prelude::*;
use crate::text::push_char;

verus! {

/// The character that writes the digit `d`.
pub open spec fn digit_char(d: nat) -> char
    recommends
        d < 10,
{
    (d + 48) as u8 as char
}

/// The decimal numeral of `n`: no sign, no leading zero but for `0` itself.
pub open spec fn decimal(n: nat) -> Seq<char>
    decreases n,
{
    if n < 10 {
        seq![digit_char(n)]
    } else {
        decimal(n / 10).push(digit_char(n % 10))
    }
}

/// The decimal numeral of `n`, with a zero in front where it has one digit.
pub open spec fn two_digits(n: nat) -> Seq<char> {
    if n < 10 {
        seq!['0'] + decimal(n)
    } else {
        decimal(n)
    }
}

/// `s` seconds written as hours, minutes and seconds, each of at least two
/// digits, with colons between them. The hours are not capped at a day.
pub open spec fn clock_text(s: nat) -> Seq<char> {
    two_digits(s / 3600) + seq![':'] + two_digits((s / 60) % 60) + seq![':'] + two_digits(s % 60)
}

/// Appends the decimal numeral of `n` to `out`.
pub fn push_decimal(out: &mut String, n: u64)
    ensures
        final(out)@ == old(out)@ + decimal(n as nat),
    decreases n,
{
    if n >= 10 {
        push_decimal(out, n / 10);
    }
    let d: u8 = (n % 10) as u8;
    push_char(out, (d + 48) as char);
}

/// Appends `n` to `out` in at least two digits.
pub fn push_two_digits(out: &mut String, n: u64)
    ensures
        final(out)@ == old(out)@ + two_digits(n as nat),
{
    if n < 10 {
        push_char(out, '0');
    }
    push_decimal(out, n);
}

/// Writes a number of seconds as `HH:MM:SS`.
pub fn convert_seconds_to_human_readable(s: u64) -> (text: String)
    ensures
        text@ == clock_text(s as nat),
{
    let hours: u64 = s / 3600;
    let minutes: u64 = (s / 60) % 60;
    let seconds: u64 = s % 60;
    let mut text = String::new();
    push_two_digits(&mut text, hours);
    push_char(&mut text, ':');
    push_two_digits(&mut text, minutes);
    push_char(&mut text, ':');
    push_two_digits(&mut text, seconds);
    text
}

} // verus!
