//! Terminal styling and small utilities.

use vstd::prelude::*;

use crate::strutil::{chars_vec, parse_u64_range, spec_parse_u64};

verus! {

/// Wrap a string in an ANSI escape prefix and the reset suffix.
fn styled(prefix: &str, s: &str) -> (r: String)
    ensures
        r@ == prefix@ + s@ + "\u{1b}[0m"@,
{
    let mut out = String::from_str(prefix);
    out.append(s);
    out.append("\u{1b}[0m");
    out
}

pub fn blue(s: &str) -> (r: String)
    ensures
        r@ == "\u{1b}[38;5;39m"@ + s@ + "\u{1b}[0m"@,
{
    styled("\u{1b}[38;5;39m", s)
}

pub fn white(s: &str) -> (r: String)
    ensures
        r@ == "\u{1b}[39m"@ + s@ + "\u{1b}[0m"@,
{
    styled("\u{1b}[39m", s)
}

pub fn yellow(s: &str) -> (r: String)
    ensures
        r@ == "\u{1b}[33m"@ + s@ + "\u{1b}[0m"@,
{
    styled("\u{1b}[33m", s)
}

pub fn green(s: &str) -> (r: String)
    ensures
        r@ == "\u{1b}[32m"@ + s@ + "\u{1b}[0m"@,
{
    styled("\u{1b}[32m", s)
}

pub fn gray(s: &str) -> (r: String)
    ensures
        r@ == "\u{1b}[90m"@ + s@ + "\u{1b}[0m"@,
{
    styled("\u{1b}[90m", s)
}

pub fn red(s: &str) -> (r: String)
    ensures
        r@ == "\u{1b}[31m"@ + s@ + "\u{1b}[0m"@,
{
    styled("\u{1b}[31m", s)
}

/// Seconds denoted by a duration unit suffix.
pub open spec fn unit_secs(c: char) -> Option<u64> {
    if c == 's' {
        Some(1u64)
    } else if c == 'm' {
        Some(60u64)
    } else if c == 'h' {
        Some(3600u64)
    } else if c == 'd' {
        Some(86400u64)
    } else {
        None
    }
}

/// What a duration string such as `"15m"` denotes in seconds: a decimal
/// count followed by a one-character unit, when the product fits.
pub open spec fn spec_parse_expires_in(s: Seq<char>) -> Option<u64> {
    if s.len() == 0 {
        None
    } else {
        match (spec_parse_u64(s.drop_last()), unit_secs(s.last())) {
            (Some(n), Some(u)) => if n * u <= u64::MAX {
                Some((n * u) as u64)
            } else {
                None
            },
            _ => None,
        }
    }
}

/// Parse a duration string such as `"30s"`, `"15m"`, `"2h"` or `"7d"` into
/// seconds. An empty string, a malformed count, an unknown unit, or a
/// product beyond the 64-bit range yields `None`.
pub fn parse_expires_in(value: &str) -> (r: Option<u64>)
    ensures
        r == spec_parse_expires_in(value@),
{
    let cs = chars_vec(value);
    if cs.len() == 0 {
        return None;
    }
    let last = cs[cs.len() - 1];
    let u: u64 = if last == 's' {
        1
    } else if last == 'm' {
        60
    } else if last == 'h' {
        3600
    } else if last == 'd' {
        86400
    } else {
        return None;
    };
    proof {
        assert(cs@.subrange(0, cs@.len() - 1) =~= cs@.drop_last());
    }
    match parse_u64_range(&cs, 0, cs.len() - 1) {
        Some(n) => n.checked_mul(u),
        None => None,
    }
}

/// Prefix a script error message with the action it came from.
pub fn format_js_error(err: &str, action: &str) -> (r: String)
    ensures
        r@ == "Action: "@ + action@ + "\n"@ + err@,
{
    let mut out = String::from_str("Action: ");
    out.append(action);
    out.append("\n");
    out.append(err);
    out
}

} // verus!
