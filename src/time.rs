//! Human-readable labels for the time elapsed between two instants.

use chrono::TimeZone;
use vstd::prelude::*;
use vstd::string::*;

verus! {

/// Largest distance from the epoch, in seconds, of an instant that a label
/// can be made for; chrono represents instants up to about 262,000 years away.
pub const TIMESTAMP_LIMIT: i64 = 8_000_000_000_000;

pub open spec fn representable(t: int) -> bool {
    -TIMESTAMP_LIMIT <= t <= TIMESTAMP_LIMIT
}

pub open spec fn digit_char(d: nat) -> char {
    seq!['0', '1', '2', '3', '4', '5', '6', '7', '8', '9'][d as int]
}

/// The decimal digits of `n`, most significant first, without leading zeros.
pub open spec fn decimal(n: nat) -> Seq<char>
    decreases n,
{
    if n < 10 {
        seq![digit_char(n)]
    } else {
        decimal(n / 10) + seq![digit_char(n % 10)]
    }
}

/// The decimal form of `n`, with a leading minus sign when it is negative.
pub open spec fn signed_decimal(n: int) -> Seq<char> {
    if n < 0 {
        seq!['-'] + decimal((-n) as nat)
    } else {
        decimal(n as nat)
    }
}

/// "`n` units ago", with `one` used in place of it when `n` is one.
pub open spec fn count_label(n: int, one: Seq<char>, unit: Seq<char>) -> Seq<char> {
    if n == 1 {
        one
    } else {
        signed_decimal(n) + " "@ + unit + "s ago"@
    }
}

/// The label for `d` seconds elapsed: the largest unit of weeks, days, hours
/// and minutes of which at least one whole has passed, else seconds.
pub open spec fn relative_label(d: int) -> Seq<char> {
    if d > 0 && (d / 86400) / 7 > 0 {
        count_label((d / 86400) / 7, "a week ago"@, "week"@)
    } else if d > 0 && d / 86400 > 0 {
        count_label(d / 86400, "a day ago"@, "day"@)
    } else if d > 0 && d / 3600 > 0 {
        count_label(d / 3600, "an hour ago"@, "hour"@)
    } else if d > 0 && d / 60 > 0 {
        count_label(d / 60, "a minute ago"@, "minute"@)
    } else {
        count_label(d, "a second ago"@, "second"@)
    }
}

/// Relies on chrono's `TimeZone::timestamp`, `DateTime::signed_duration_since`
/// and `TimeDelta::num_seconds`: for two whole-second instants in chrono's
/// range, the whole seconds from `t1` to `t2`.
#[verifier::external_body]
#[allow(deprecated)]
fn elapsed_seconds(t1: i64, t2: i64) -> (r: i64)
    requires
        representable(t1 as int),
        representable(t2 as int),
    ensures
        r == t2 - t1,
{
    let dt1 = chrono::Utc.timestamp(t1, 0);
    let dt2 = chrono::Utc.timestamp(t2, 0);
    dt2.signed_duration_since(dt1).num_seconds()
}

/// Appends the decimal digits of `n` to `s`.
fn append_decimal(s: &mut String, n: u64)
    ensures
        final(s)@ == old(s)@ + decimal(n as nat),
    decreases n,
{
    let ghost start = s@;
    if n >= 10 {
        append_decimal(s, n / 10);
    }
    let digits = "0123456789";
    proof {
        reveal_strlit("0123456789");
    }
    let k = (n % 10) as usize;
    let d = digits.substring_char(k, k + 1);
    assert(d@ =~= seq![digit_char((n % 10) as nat)]);
    s.append(d);
    assert(s@ =~= start + decimal(n as nat));
}

/// Builds `count_label(n, one, unit)`.
fn make_count_label(n: i64, one: &str, unit: &str) -> (r: String)
    requires
        n > i64::MIN,
    ensures
        r@ == count_label(n as int, one@, unit@),
{
    if n == 1 {
        return String::from_str(one);
    }
    let mut s = String::new();
    if n < 0 {
        s.append("-");
        append_decimal(&mut s, (-n) as u64);
    } else {
        append_decimal(&mut s, n as u64);
    }
    let ghost digits = s@;
    s.append(" ");
    s.append(unit);
    s.append("s ago");
    proof {
        reveal_strlit("-");
        assert(digits == signed_decimal(n as int));
    }
    assert(s@ =~= signed_decimal(n as int) + " "@ + unit@ + "s ago"@);
    s
}

/// Label for how long before `t2` the instant `t1` lies, both in seconds
/// since the epoch ("a minute ago", "3 days ago").
pub fn get_relative_time(t1: i64, t2: i64) -> (r: String)
    requires
        representable(t1 as int),
        representable(t2 as int),
    ensures
        r@ == relative_label(t2 - t1),
{
    let d = elapsed_seconds(t1, t2);
    if d > 0 {
        let secs = d as u64;
        let days = secs / 86400;
        let weeks = days / 7;
        if weeks > 0 {
            return make_count_label(weeks as i64, "a week ago", "week");
        } else if days > 0 {
            return make_count_label(days as i64, "a day ago", "day");
        } else if secs / 3600 > 0 {
            return make_count_label((secs / 3600) as i64, "an hour ago", "hour");
        } else if secs / 60 > 0 {
            return make_count_label((secs / 60) as i64, "a minute ago", "minute");
        }
    }
    make_count_label(d, "a second ago", "second")
}

} // verus!
