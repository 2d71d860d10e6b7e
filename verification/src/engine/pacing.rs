//! Request pacing: the delay before each request that keeps a configured
//! rate.

use crate::models::config::PacingConfig;
use crate::text::{
    chars_of, ends_with, ends_with_in, parse_u64, parse_u64_in, trim_end_matches,
    trim_end_matches_bound,
};
use core::time::Duration;
use vstd::prelude::*;

verus! {

/// The length in milliseconds of a pacing period such as `"1s"`, `"500ms"`
/// or `"5m"`: `ms`, `s` and `m` suffixes (repeated ones included) scale the
/// unsigned number before them; a number that does not parse counts as one
/// second, one second or one minute; any other text is one second.
pub open spec fn period_ms(s: Seq<char>) -> int {
    if ends_with(s, seq!['m', 's']) {
        match parse_u64(trim_end_matches(s, seq!['m', 's'])) {
            Some(v) => v as int,
            None => 1000,
        }
    } else if ends_with(s, seq!['s']) {
        match parse_u64(trim_end_matches(s, seq!['s'])) {
            Some(v) => v * 1000,
            None => 1000,
        }
    } else if ends_with(s, seq!['m']) {
        match parse_u64(trim_end_matches(s, seq!['m'])) {
            Some(v) => v * 60000,
            None => 60000,
        }
    } else {
        1000
    }
}

/// Parses a pacing period into milliseconds.
pub fn parse_period(s: &str) -> (r: u64)
    requires
        period_ms(s@) <= u64::MAX,
    ensures
        r == period_ms(s@),
{
    match parse_period_checked(s) {
        Some(n) => n,
        None => 0,
    }
}

/// [`parse_period`] without its overflow bound: `Some` with the period when
/// it fits in a `u64`, `None` when the scaling to milliseconds overflows.
pub fn parse_period_checked(s: &str) -> (r: Option<u64>)
    ensures
        match r {
            Some(v) => v == period_ms(s@),
            None => period_ms(s@) > u64::MAX,
        },
{
    let v = chars_of(s);
    assert(v@.subrange(0, v@.len() as int) =~= v@);
    let ms = vec!['m', 's'];
    let sec = vec!['s'];
    let min = vec!['m'];
    assert(ms@ =~= seq!['m', 's']);
    assert(sec@ =~= seq!['s']);
    assert(min@ =~= seq!['m']);
    if ends_with_in(&v, 0, v.len(), &ms) {
        let end = trim_end_matches_bound(&v, 0, v.len(), &ms);
        match parse_u64_in(&v, 0, end) {
            Some(n) => Some(n),
            None => Some(1000),
        }
    } else if ends_with_in(&v, 0, v.len(), &sec) {
        let end = trim_end_matches_bound(&v, 0, v.len(), &sec);
        match parse_u64_in(&v, 0, end) {
            Some(n) => n.checked_mul(1000),
            None => Some(1000),
        }
    } else if ends_with_in(&v, 0, v.len(), &min) {
        let end = trim_end_matches_bound(&v, 0, v.len(), &min);
        match parse_u64_in(&v, 0, end) {
            Some(n) => n.checked_mul(60000),
            None => Some(60000),
        }
    } else {
        Some(1000)
    }
}

/// The duration of `ms` milliseconds, as `Duration::from_millis` makes it.
pub uninterp spec fn millis_duration(ms: u64) -> Duration;

/// A duration of `ms` milliseconds (std's `Duration::from_millis`). The
/// contract names the result.
#[verifier::external_body]
fn duration_from_millis(ms: u64) -> (d: Duration)
    ensures
        d == millis_duration(ms),
{
    Duration::from_millis(ms)
}

/// `v` brought into `[lo, hi]`.
pub open spec fn clamp_ms(v: int, lo: int, hi: int) -> int {
    if v < lo {
        lo
    } else if v > hi {
        hi
    } else {
        v
    }
}

/// The pacing delay in milliseconds: none at rate 0; else the period split
/// evenly over the rate, in whole milliseconds; randomized, the sample
/// `sample_ms` kept between 1 ms and ten times that.
pub open spec fn pacing_delay_ms(c: PacingConfig, sample_ms: u64) -> int {
    if c.rate == 0 {
        0
    } else {
        let base = period_ms(c.per@) / (c.rate as int);
        if c.randomize {
            clamp_ms(sample_ms as int, 1, base * 10)
        } else {
            base
        }
    }
}

/// The largest integer below which every integer is exact as an `f64`.
pub open spec fn f64_exact_limit() -> int {
    0x20_0000_0000_0000
}

/// The delay keeps the rate: none at rate 0; else, fixed, it is the whole
/// milliseconds of the period split evenly (`rate` delays fit in the
/// period, one more does not); randomized, it is the sample brought between
/// 1 ms and ten times that split.
pub proof fn lemma_pacing_delay_keeps_rate(c: PacingConfig, sample_ms: u64)
    ensures
        c.rate == 0 ==> pacing_delay_ms(c, sample_ms) == 0,
        c.rate > 0 && !c.randomize ==> pacing_delay_ms(c, sample_ms) * c.rate <= period_ms(c.per@) < (
        pacing_delay_ms(c, sample_ms) + 1) * c.rate,
        c.rate > 0 && c.randomize && period_ms(c.per@) >= c.rate ==> {
            let d = pacing_delay_ms(c, sample_ms);
            let split = period_ms(c.per@) / (c.rate as int);
            &&& 1 <= d <= 10 * split
            &&& 1 <= sample_ms <= 10 * split ==> d == sample_ms
            &&& sample_ms < 1 ==> d == 1
            &&& sample_ms > 10 * split ==> d == 10 * split
        },
{
    if c.rate > 0 {
        let p = period_ms(c.per@);
        let r = c.rate as int;
        let q = p / r;
        assert(q * r <= p < (q + 1) * r) by (nonlinear_arith)
            requires
                r > 0,
                p >= 0,
                q == p / r,
        ;
        if p >= r {
            assert(q >= 1) by (nonlinear_arith)
                requires
                    r > 0,
                    p >= r,
                    q == p / r,
            ;
        }
    }
}

/// Computes pacing delays.
pub struct PacingEngine;

impl PacingEngine {
    /// The delay before a paced request. With `randomize`, `exp_sample_ms`
    /// is the exponentially distributed sample (mean: the even split), in
    /// whole milliseconds, that the delay is drawn from. The period must fit
    /// in a `u64`, and be exact as a floating-point number when the rate is
    /// not 0; a randomized delay needs an even split of at least 1 ms (a
    /// smaller one has no valid range).
    pub fn calculate_delay(config: &PacingConfig, exp_sample_ms: u64) -> (d: Duration)
        requires
            period_ms(config.per@) <= u64::MAX,
            config.rate > 0 ==> period_ms(config.per@) < f64_exact_limit(),
            config.rate > 0 && config.randomize ==> period_ms(config.per@) >= config.rate as int,
        ensures
            d == millis_duration(pacing_delay_ms(*config, exp_sample_ms) as u64),
            0 <= pacing_delay_ms(*config, exp_sample_ms) <= u64::MAX,
    {
        let period = parse_period(config.per.as_str());
        if config.rate == 0 {
            return duration_from_millis(0);
        }
        let base = period / (config.rate as u64);
        assert(base * 10 <= u64::MAX) by (nonlinear_arith)
            requires
                base <= period,
                period < 0x20_0000_0000_0000u64,
        ;
        let ms = if config.randomize {
            let hi = base * 10;
            if exp_sample_ms < 1 {
                1
            } else if exp_sample_ms > hi {
                hi
            } else {
                exp_sample_ms
            }
        } else {
            base
        };
        duration_from_millis(ms)
    }
}

} // verus!
