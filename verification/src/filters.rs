//! Text filters for the pages: how long ago something was published, in the
//! words of the site.

use crate::clock::unix_now;
use vstd::prelude::*;
use vstd::string::StringExecFns;

verus! {

pub const SECONDS_PER_MINUTE: u64 = 60;

pub const SECONDS_PER_HOUR: u64 = 3_600;

pub const SECONDS_PER_DAY: u64 = 86_400;

/// A length of time, counted in whole units of one kind.
#[derive(Clone, Copy, Debug, PartialEq, Eq, Structural)]
pub enum Span {
    Years(u64),
    Months(u64),
    Weeks(u64),
    Days(u64),
    Hours(u64),
    Minutes(u64),
    /// Less than a minute, or a time that has not come yet.
    Moment,
}

/// The span of `elapsed` seconds. More than 365 days are counted in years of
/// 365 days, more than 30 days in months of 30 days, more than 7 days in
/// weeks; a shorter time is counted in days, hours or minutes, whichever is
/// the largest unit that it fills once. Less than a minute is a moment.
pub open spec fn span_of(elapsed: int) -> Span {
    let days = elapsed / 86_400;
    if elapsed < 60 {
        Span::Moment
    } else if days > 365 {
        Span::Years((days / 365) as u64)
    } else if days > 30 {
        Span::Months((days / 30) as u64)
    } else if days > 7 {
        Span::Weeks((days / 7) as u64)
    } else if days > 0 {
        Span::Days(days as u64)
    } else if elapsed / 3_600 > 0 {
        Span::Hours((elapsed / 3_600) as u64)
    } else {
        Span::Minutes((elapsed / 60) as u64)
    }
}

/// The character of a decimal digit.
pub open spec fn digit_char(digit: int) -> char {
    if digit == 0 {
        '0'
    } else if digit == 1 {
        '1'
    } else if digit == 2 {
        '2'
    } else if digit == 3 {
        '3'
    } else if digit == 4 {
        '4'
    } else if digit == 5 {
        '5'
    } else if digit == 6 {
        '6'
    } else if digit == 7 {
        '7'
    } else if digit == 8 {
        '8'
    } else {
        '9'
    }
}

/// A number in decimal digits, without leading zeros.
pub open spec fn decimal_text(number: nat) -> Seq<char>
    decreases number,
{
    if number < 10 {
        seq![digit_char(number as int)]
    } else {
        decimal_text(number / 10).push(digit_char((number % 10) as int))
    }
}

/// A count followed by the words of its unit.
pub open spec fn counted(count: u64, words: Seq<char>) -> Seq<char> {
    decimal_text(count as nat) + words
}

/// How a span reads on a page.
pub open spec fn span_text(span: Span) -> Seq<char> {
    match span {
        Span::Years(count) => counted(count, " yıl önce"@),
        Span::Months(count) => counted(count, " ay önce"@),
        Span::Weeks(count) => counted(count, " hafta önce"@),
        Span::Days(count) => if count == 1 {
            "dün"@
        } else {
            counted(count, " gün önce"@)
        },
        Span::Hours(count) => counted(count, " saat önce"@),
        Span::Minutes(count) => counted(count, " dakika önce"@),
        Span::Moment => "az önce"@,
    }
}

/// The seconds from `then` to `now`, both counted from one epoch.
pub open spec fn elapsed_between(then: i64, now: i64) -> int {
    now - then
}

fn digit_text(digit: u64) -> (text: &'static str)
    requires
        digit < 10,
    ensures
        text@ == seq![digit_char(digit as int)],
{
    proof {
        reveal_strlit("0");
        reveal_strlit("1");
        reveal_strlit("2");
        reveal_strlit("3");
        reveal_strlit("4");
        reveal_strlit("5");
        reveal_strlit("6");
        reveal_strlit("7");
        reveal_strlit("8");
        reveal_strlit("9");
    }
    let text = if digit == 0 {
        "0"
    } else if digit == 1 {
        "1"
    } else if digit == 2 {
        "2"
    } else if digit == 3 {
        "3"
    } else if digit == 4 {
        "4"
    } else if digit == 5 {
        "5"
    } else if digit == 6 {
        "6"
    } else if digit == 7 {
        "7"
    } else if digit == 8 {
        "8"
    } else {
        "9"
    };
    text
}

/// Writes a number in decimal digits.
pub fn decimal(number: u64) -> (text: String)
    ensures
        text@ == decimal_text(number as nat),
    decreases number,
{
    if number < 10 {
        digit_text(number).to_owned()
    } else {
        let mut text = decimal(number / 10);
        text.append(digit_text(number % 10));
        text
    }
}

/// The span between two times given in seconds since one epoch.
pub fn span_between(then: i64, now: i64) -> (span: Span)
    ensures
        span == span_of(elapsed_between(then, now)),
{
    if now <= then {
        return Span::Moment;
    }
    let elapsed: u64 = (now as i128 - then as i128) as u64;
    let days = elapsed / SECONDS_PER_DAY;
    if elapsed < SECONDS_PER_MINUTE {
        Span::Moment
    } else if days > 365 {
        Span::Years(days / 365)
    } else if days > 30 {
        Span::Months(days / 30)
    } else if days > 7 {
        Span::Weeks(days / 7)
    } else if days > 0 {
        Span::Days(days)
    } else if elapsed / SECONDS_PER_HOUR > 0 {
        Span::Hours(elapsed / SECONDS_PER_HOUR)
    } else {
        Span::Minutes(elapsed / SECONDS_PER_MINUTE)
    }
}

fn count_with(count: u64, words: &str) -> (text: String)
    ensures
        text@ == counted(count, words@),
{
    let mut text = decimal(count);
    text.append(words);
    text
}

/// Renders a span as it reads on a page.
pub fn describe(span: Span) -> (text: String)
    ensures
        text@ == span_text(span),
{
    match span {
        Span::Years(count) => count_with(count, " yıl önce"),
        Span::Months(count) => count_with(count, " ay önce"),
        Span::Weeks(count) => count_with(count, " hafta önce"),
        Span::Days(count) => if count == 1 {
            "dün".to_owned()
        } else {
            count_with(count, " gün önce")
        },
        Span::Hours(count) => count_with(count, " saat önce"),
        Span::Minutes(count) => count_with(count, " dakika önce"),
        Span::Moment => "az önce".to_owned(),
    }
}

/// How long before `now` the time `then` lies, as it reads on a page. Both
/// are given in seconds since the Unix epoch.
pub fn time_ago_at(then: i64, now: i64) -> (text: String)
    ensures
        text@ == span_text(span_of(elapsed_between(then, now))),
{
    describe(span_between(then, now))
}

/// How long ago `then` was, as it reads on a page; `then` is given in seconds
/// since the Unix epoch, and the present time is read from the wall clock.
pub fn time_ago(then: i64) -> (text: String)
    ensures
        exists|now: i64|
            now >= 0 && text@ == #[trigger] span_text(span_of(elapsed_between(then, now))),
{
    let now = unix_now();
    time_ago_at(then, now)
}

} // verus!
