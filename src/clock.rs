//! Decimal rendering and the wall-clock timestamps of log lines.

use vstd::prelude::*;
use chrono::Datelike;
use chrono::Timelike;
use crate::model::{output_type_label, StepOutputType};
use crate::text::push_char;

verus! {

pub open spec fn digit_char(d: int) -> char {
    if d == 0 { '0' }
    else if d == 1 { '1' }
    else if d == 2 { '2' }
    else if d == 3 { '3' }
    else if d == 4 { '4' }
    else if d == 5 { '5' }
    else if d == 6 { '6' }
    else if d == 7 { '7' }
    else if d == 8 { '8' }
    else { '9' }
}

/// The decimal digits of `n`, without leading zeros.
pub open spec fn decimal(n: nat) -> Seq<char>
    decreases n,
{
    if n < 10 {
        seq![digit_char(n as int)]
    } else {
        decimal(n / 10).push(digit_char((n % 10) as int))
    }
}

/// `n` in decimal, with a leading `-` when negative.
pub open spec fn signed_decimal(n: int) -> Seq<char> {
    if n < 0 { seq!['-'] + decimal((-n) as nat) } else { decimal(n as nat) }
}

/// `n` in decimal, padded to two digits with a leading zero.
pub open spec fn two_digits(n: nat) -> Seq<char> {
    if n < 10 { seq!['0'] + decimal(n) } else { decimal(n) }
}

fn digit(d: u64) -> (r: char)
    requires
        d < 10,
    ensures
        r == digit_char(d as int),
{
    if d == 0 { '0' }
    else if d == 1 { '1' }
    else if d == 2 { '2' }
    else if d == 3 { '3' }
    else if d == 4 { '4' }
    else if d == 5 { '5' }
    else if d == 6 { '6' }
    else if d == 7 { '7' }
    else if d == 8 { '8' }
    else { '9' }
}

/// Appends the decimal digits of `n` to `out`.
pub fn push_decimal(out: &mut String, n: u64)
    ensures
        final(out)@ == old(out)@ + decimal(n as nat),
    decreases n,
{
    if n >= 10 {
        push_decimal(out, n / 10);
    }
    push_char(out, digit(n % 10));
    assert(final(out)@ =~= old(out)@ + decimal(n as nat));
}

/// Appends `n` padded to two digits to `out`.
pub fn push_two_digits(out: &mut String, n: u32)
    ensures
        final(out)@ == old(out)@ + two_digits(n as nat),
{
    if n < 10 {
        push_char(out, '0');
    }
    push_decimal(out, n as u64);
    assert(final(out)@ =~= old(out)@ + two_digits(n as nat));
}

/// The decimal rendering of `n`.
pub fn decimal_string(n: u64) -> (r: String)
    ensures
        r@ == decimal(n as nat),
{
    let mut r = String::new();
    push_decimal(&mut r, n);
    assert(r@ =~= decimal(n as nat));
    r
}

/// A local wall-clock time, broken into its fields.
#[derive(Clone, Copy, Debug, PartialEq, Eq, Structural)]
pub struct LocalTime {
    pub year: i32,
    pub month: u32,
    pub day: u32,
    pub hour: u32,
    pub minute: u32,
    pub second: u32,
}

impl LocalTime {
    /// The fields are in the ranges of a calendar date and a time of day.
    pub open spec fn wf(&self) -> bool {
        &&& 1 <= self.month <= 12
        &&& 1 <= self.day <= 31
        &&& self.hour <= 23
        &&& self.minute <= 59
        &&& self.second <= 59
    }
}

/// `YYYY-MM-DD HH:MM:SS`, the form of the timestamps in log lines.
pub open spec fn timestamp(t: LocalTime) -> Seq<char> {
    signed_decimal(t.year as int) + seq!['-'] + two_digits(t.month as nat) + seq!['-']
        + two_digits(t.day as nat) + seq![' '] + two_digits(t.hour as nat) + seq![':']
        + two_digits(t.minute as nat) + seq![':'] + two_digits(t.second as nat)
}

/// Renders `t` as a log timestamp.
pub fn format_timestamp(t: &LocalTime) -> (r: String)
    ensures
        r@ == timestamp(*t),
{
    let mut r = String::new();
    if t.year < 0 {
        push_char(&mut r, '-');
        let y: i64 = -(t.year as i64);
        push_decimal(&mut r, y as u64);
    } else {
        push_decimal(&mut r, t.year as u64);
    }
    push_char(&mut r, '-');
    push_two_digits(&mut r, t.month);
    push_char(&mut r, '-');
    push_two_digits(&mut r, t.day);
    push_char(&mut r, ' ');
    push_two_digits(&mut r, t.hour);
    push_char(&mut r, ':');
    push_two_digits(&mut r, t.minute);
    push_char(&mut r, ':');
    push_two_digits(&mut r, t.second);
    assert(r@ =~= timestamp(*t));
    r
}

/// Relies on `chrono::Local::now` and the `Datelike` / `Timelike` accessors
/// of its result: the current local time; chrono documents the month as
/// 1 to 12, the day as 1 to 31, the hour as 0 to 23 and the minute and
/// second as 0 to 59.
#[verifier::external_body]
fn local_now() -> (r: LocalTime)
    ensures
        r.wf(),
{
    let now = chrono::Local::now();
    LocalTime {
        year: now.year(),
        month: now.month(),
        day: now.day(),
        hour: now.hour(),
        minute: now.minute(),
        second: now.second(),
    }
}

/// The current local time as a log timestamp.
pub fn time_is_now() -> (r: String)
    ensures
        exists|t: LocalTime| t.wf() && r@ == timestamp(t),
{
    let t = local_now();
    format_timestamp(&t)
}

/// A log line: timestamp, channel marker and text, separated by spaces.
pub open spec fn log_line(time: Seq<char>, out_type: StepOutputType, text: Seq<char>) -> Seq<char> {
    time + seq![' '] + output_type_label(out_type) + seq![' '] + text
}

/// Renders a log line from its parts.
pub fn format_log_line(time: &str, out_type: StepOutputType, text: &str) -> (r: String)
    ensures
        r@ == log_line(time@, out_type, text@),
{
    let mut r = String::new();
    r.append(time);
    push_char(&mut r, ' ');
    r.append(out_type.label());
    push_char(&mut r, ' ');
    r.append(text);
    assert(r@ =~= log_line(time@, out_type, text@));
    r
}

/// A log line stamped with the current local time.
pub fn msg_with_time_stamp(msg: &str, out_type: StepOutputType) -> (r: String)
    ensures
        exists|t: LocalTime| t.wf() && r@ == log_line(timestamp(t), out_type, msg@),
{
    let now = time_is_now();
    format_log_line(now.as_str(), out_type, msg)
}

} // verus!
