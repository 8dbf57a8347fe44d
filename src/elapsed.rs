use vstd::prelude::*;
use vstd::arithmetic::div_mod::{lemma_fundamental_div_mod, lemma_mod_mod};
use crate::number::{float_seconds, parse_whole_seconds};
use crate::text::{split_tokens, tokens};

verus! {

pub const SECONDS_PER_DAY: u64 = 86400;
pub const SECONDS_PER_HOUR: u64 = 3600;
pub const SECONDS_PER_MINUTE: u64 = 60;

/// Whole days, hours and minutes elapsed since some instant.
#[derive(Debug, Clone, Copy, PartialEq, Eq, Structural)]
pub struct ElapsedTime {
    pub days: u64,
    pub hours: u64,
    pub minutes: u64,
}

/// The decomposition of a number of seconds, truncated to whole minutes.
pub open spec fn elapsed_of(secs: nat) -> ElapsedTime {
    ElapsedTime {
        days: (secs / 86400) as u64,
        hours: ((secs % 86400) / 3600) as u64,
        minutes: ((secs % 3600) / 60) as u64,
    }
}

impl ElapsedTime {
    /// Hours and minutes lie within their clock ranges.
    pub open spec fn wf(self) -> bool {
        self.hours < 24 && self.minutes < 60
    }

    /// The number of seconds covered by the whole days, hours and minutes.
    pub open spec fn covered_seconds(self) -> int {
        self.days * 86400 + self.hours * 3600 + self.minutes * 60
    }

    /// Splits a number of seconds into days, hours and minutes; the
    /// remaining seconds are dropped.
    pub fn from_seconds(secs: u64) -> (r: ElapsedTime)
        ensures
            r == elapsed_of(secs as nat),
            r.wf(),
            r.covered_seconds() <= secs < r.covered_seconds() + 60,
    {
        proof {
            lemma_decomposition(secs as nat);
        }
        ElapsedTime {
            days: secs / SECONDS_PER_DAY,
            hours: (secs % SECONDS_PER_DAY) / SECONDS_PER_HOUR,
            minutes: (secs % SECONDS_PER_HOUR) / SECONDS_PER_MINUTE,
        }
    }
}

/// Every number of seconds lies within the minute that its decomposition
/// names: the days, hours and minutes cover it up to less than one minute,
/// and the hours and minutes stay within their clock ranges.
pub proof fn lemma_decomposition(secs: nat)
    requires
        secs <= u64::MAX,
    ensures
        elapsed_of(secs).wf(),
        elapsed_of(secs).covered_seconds() <= secs,
        secs < elapsed_of(secs).covered_seconds() + 60,
{
    let d = secs / 86400;
    let r = secs % 86400;
    let h = r / 3600;
    let r2 = r % 3600;
    let m = r2 / 60;
    let r3 = r2 % 60;
    lemma_fundamental_div_mod(secs as int, 86400);
    lemma_fundamental_div_mod(r as int, 3600);
    lemma_fundamental_div_mod(r2 as int, 60);
    lemma_mod_mod(secs as int, 3600, 24);
    assert(r2 == secs % 3600);
    assert(h < 24);
    assert(m < 60);
    assert(d <= secs) by (nonlinear_arith)
        requires d == secs / 86400;
    assert(secs == 86400 * d + 3600 * h + 60 * m + r3);
    assert(r3 < 60);
    assert(elapsed_of(secs).days == d);
    assert(elapsed_of(secs).hours == h);
    assert(elapsed_of(secs).minutes == m);
}

/// A source text does not have the shape its reader needs: the uptime
/// text's first token is missing or is no usable number of seconds, or the
/// load-average text holds fewer than three tokens.
#[derive(Debug, Clone, Copy, PartialEq, Eq, Structural)]
pub struct ParseError;

/// The whole seconds that an uptime text states in its first token, if that
/// token is a floating-point literal whose truncation is not negative.
pub open spec fn uptime_seconds(text: Seq<char>) -> Option<nat> {
    let ts = tokens(text);
    if ts.len() > 0 {
        float_seconds(ts[0])
    } else {
        None
    }
}

/// Reads the whole seconds from an uptime text: its first white-space
/// separated token is a floating-point literal of seconds, truncated toward
/// zero, and the rest is ignored. Fails where that token is missing, is no
/// finite literal (`inf` and `nan` are refused), truncates to a negative
/// number, or exceeds `u64`.
pub fn parse_uptime_seconds(text: &str) -> (r: Result<u64, ParseError>)
    ensures
        r is Ok <==> uptime_seconds(text@) is Some && uptime_seconds(text@)->0 <= u64::MAX,
        r is Ok ==> r->Ok_0 == uptime_seconds(text@)->0,
{
    let words = split_tokens(text);
    if words.len() == 0 {
        return Err(ParseError);
    }
    proof {
        assert(words[0]@ == words.deep_view()[0]);
    }
    match parse_whole_seconds(words[0].as_str()) {
        Some(secs) => Ok(secs),
        None => Err(ParseError),
    }
}

/// Reads the elapsed time from an uptime text, as `parse_uptime_seconds`
/// reads its seconds, and splits it into days, hours and minutes.
pub fn parse_uptime(text: &str) -> (r: Result<ElapsedTime, ParseError>)
    ensures
        r is Ok <==> uptime_seconds(text@) is Some && uptime_seconds(text@)->0 <= u64::MAX,
        r is Ok ==> r->Ok_0 == elapsed_of(uptime_seconds(text@)->0) && r->Ok_0.wf(),
{
    match parse_uptime_seconds(text) {
        Ok(secs) => Ok(ElapsedTime::from_seconds(secs)),
        Err(e) => Err(e),
    }
}

} // verus!
