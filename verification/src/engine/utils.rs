//! Time-string parsing shared by pacing, think times, timeouts and plans.

use crate::text::{
    chars_of, ends_with, ends_with_in, parse_u64, parse_u64_in, trim, trim_bounds, trim_end_matches,
    trim_end_matches_bound,
};
use vstd::prelude::*;

verus! {

/// The number of milliseconds that a time string such as `"30s"`,
/// `"5000ms"` or `"5m"` denotes, before any bound: surrounding whitespace is
/// ignored, `ms`, `s` and `m` suffixes (repeated ones included) scale the
/// unsigned number before them, a bare number is milliseconds, and anything
/// that does not parse counts as 0.
pub open spec fn time_ms(s: Seq<char>) -> int {
    let t = trim(s);
    if t.len() == 0 {
        0
    } else if ends_with(t, seq!['m', 's']) {
        match parse_u64(trim_end_matches(t, seq!['m', 's'])) {
            Some(v) => v as int,
            None => 0,
        }
    } else if ends_with(t, seq!['s']) {
        match parse_u64(trim_end_matches(t, seq!['s'])) {
            Some(v) => v * 1000,
            None => 0,
        }
    } else if ends_with(t, seq!['m']) {
        match parse_u64(trim_end_matches(t, seq!['m'])) {
            Some(v) => v * 60000,
            None => 0,
        }
    } else {
        match parse_u64(t) {
            Some(v) => v as int,
            None => 0,
        }
    }
}

/// [`parse_time_to_ms`] without its overflow bound: `Some` with the value when
/// it fits in a `u64`, `None` when the scaling to milliseconds would overflow.
pub fn parse_time_to_ms_checked(s: &str) -> (r: Option<u64>)
    ensures
        match r {
            Some(v) => v == time_ms(s@),
            None => time_ms(s@) > u64::MAX,
        },
{
    let v = chars_of(s);
    let (lo, hi) = trim_bounds(&v, 0, v.len());
    let ghost t = v@.subrange(lo as int, hi as int);
    assert(v@.subrange(0, v.len() as int) =~= v@);
    if lo == hi {
        return Some(0);
    }
    let ms = vec!['m', 's'];
    let sec = vec!['s'];
    let min = vec!['m'];
    assert(ms@ =~= seq!['m', 's']);
    assert(sec@ =~= seq!['s']);
    assert(min@ =~= seq!['m']);
    if ends_with_in(&v, lo, hi, &ms) {
        let end = trim_end_matches_bound(&v, lo, hi, &ms);
        match parse_u64_in(&v, lo, end) {
            Some(n) => Some(n),
            None => Some(0),
        }
    } else if ends_with_in(&v, lo, hi, &sec) {
        let end = trim_end_matches_bound(&v, lo, hi, &sec);
        match parse_u64_in(&v, lo, end) {
            Some(n) => n.checked_mul(1000),
            None => Some(0),
        }
    } else if ends_with_in(&v, lo, hi, &min) {
        let end = trim_end_matches_bound(&v, lo, hi, &min);
        match parse_u64_in(&v, lo, end) {
            Some(n) => n.checked_mul(60000),
            None => Some(0),
        }
    } else {
        match parse_u64_in(&v, lo, hi) {
            Some(n) => Some(n),
            None => Some(0),
        }
    }
}

/// Parses a time string (e.g. `"30s"`, `"5000ms"`, `"5m"`) into milliseconds;
/// a string that does not parse gives 0.
pub fn parse_time_to_ms(s: &str) -> (r: u64)
    requires
        time_ms(s@) <= u64::MAX,
    ensures
        r == time_ms(s@),
{
    match parse_time_to_ms_checked(s) {
        Some(v) => v,
        None => 0,
    }
}

} // verus!
