use vstd::prelude::*;
use vstd::string::StringExecFns;
use crate::elapsed::ElapsedTime;
use crate::loadavg::{load_phrase, LoadAverage};
use crate::text::{decimal, push_decimal, push_two_digits, two_digits};

verus! {

/// Which phrase the elapsed time is rendered as.
#[derive(Debug, Clone, Copy, PartialEq, Eq, Structural)]
pub enum UptimeFormat {
    /// `"2 days, 3:07"`, `"5 min"`
    Compact,
    /// `"2 days, 3 hours, 7 minutes"`, `"5 minutes"`
    Verbose,
}

/// The leading day count: empty for no day, singular for one.
pub open spec fn days_phrase(days: nat) -> Seq<char> {
    if days == 0 {
        seq![]
    } else if days == 1 {
        decimal(days) + " day, "@
    } else {
        decimal(days) + " days, "@
    }
}

/// The hours and minutes, in the chosen format.
pub open spec fn clock_phrase(t: ElapsedTime, kind: UptimeFormat) -> Seq<char> {
    match kind {
        UptimeFormat::Compact => if t.hours == 0 {
            decimal(t.minutes as nat) + " min"@
        } else {
            decimal(t.hours as nat) + ":"@ + two_digits(t.minutes as nat)
        },
        UptimeFormat::Verbose => if t.hours == 0 {
            decimal(t.minutes as nat) + " minutes"@
        } else {
            decimal(t.hours as nat) + " hours, "@ + decimal(t.minutes as nat) + " minutes"@
        },
    }
}

/// The whole phrase for an elapsed time.
pub open spec fn uptime_phrase(t: ElapsedTime, kind: UptimeFormat) -> Seq<char> {
    days_phrase(t.days as nat) + clock_phrase(t, kind)
}

/// The logged-in user count: singular for exactly one user.
pub open spec fn users_phrase(count: nat) -> Seq<char> {
    if count == 1 {
        decimal(count) + " user"@
    } else {
        decimal(count) + " users"@
    }
}

/// The full status line: current time, elapsed time, users and load.
pub open spec fn status_phrase(
    clock: Seq<char>,
    t: ElapsedTime,
    users: nat,
    load: Seq<char>,
) -> Seq<char> {
    " "@ + clock + " up "@ + uptime_phrase(t, UptimeFormat::Compact) + ", "@ + users_phrase(users)
        + ", load average: "@ + load
}

/// Renders an elapsed time as a phrase.
pub fn format_uptime(t: ElapsedTime, kind: UptimeFormat) -> (r: String)
    ensures
        r@ == uptime_phrase(t, kind),
{
    let mut s = String::new();
    if t.days > 0 {
        push_decimal(&mut s, t.days);
        if t.days == 1 {
            s.append(" day, ");
        } else {
            s.append(" days, ");
        }
    }
    let ghost days_part = s@;
    assert(days_part =~= days_phrase(t.days as nat));
    match kind {
        UptimeFormat::Compact => {
            if t.hours == 0 {
                push_decimal(&mut s, t.minutes);
                s.append(" min");
            } else {
                push_decimal(&mut s, t.hours);
                s.append(":");
                push_two_digits(&mut s, t.minutes);
            }
        },
        UptimeFormat::Verbose => {
            if t.hours == 0 {
                push_decimal(&mut s, t.minutes);
                s.append(" minutes");
            } else {
                push_decimal(&mut s, t.hours);
                s.append(" hours, ");
                push_decimal(&mut s, t.minutes);
                s.append(" minutes");
            }
        },
    }
    assert(s@ =~= days_part + clock_phrase(t, kind));
    s
}

/// Renders the number of logged-in users.
pub fn format_users(count: usize) -> (r: String)
    ensures
        r@ == users_phrase(count as nat),
{
    let mut s = String::new();
    push_decimal(&mut s, count as u64);
    if count == 1 {
        s.append(" user");
    } else {
        s.append(" users");
    }
    assert(s@ =~= users_phrase(count as nat));
    s
}

/// Renders the status line from the current time of day, the elapsed time,
/// the user count and the load averages.
pub fn status_line(clock: &str, t: ElapsedTime, users: usize, load: &LoadAverage) -> (r: String)
    ensures
        r@ == status_phrase(clock@, t, users as nat, load_phrase(load)),
{
    let mut s = String::from_str(" ");
    s.append(clock);
    s.append(" up ");
    let up = format_uptime(t, UptimeFormat::Compact);
    s.append(up.as_str());
    s.append(", ");
    let who = format_users(users);
    s.append(who.as_str());
    s.append(", load average: ");
    let avg = load.render();
    s.append(avg.as_str());
    assert(s@ =~= status_phrase(clock@, t, users as nat, load_phrase(load)));
    s
}

/// Renders the elapsed time in its verbose form after `"up "`.
pub fn pretty_line(t: ElapsedTime) -> (r: String)
    ensures
        r@ == "up "@ + uptime_phrase(t, UptimeFormat::Verbose),
{
    let mut s = String::from_str("up ");
    let up = format_uptime(t, UptimeFormat::Verbose);
    s.append(up.as_str());
    s
}

/// Rendering is a function of the elapsed time and the format alone: equal
/// inputs give equal phrases, however often the phrase is rendered.
pub proof fn lemma_format_deterministic(a: ElapsedTime, b: ElapsedTime, kind: UptimeFormat)
    requires
        a == b,
    ensures
        uptime_phrase(a, kind) == uptime_phrase(b, kind),
{
}

} // verus!
