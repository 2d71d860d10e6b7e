//! Resolution of `${env.NAME}` placeholders from session variables and the
//! environment, refusing sensitive names.

use crate::engine::interpolation::lemma_scan_well_formed;
use crate::engine::macros::{is_sensitive_var, sensitive_name};
use crate::engine::patterns::{
    cap_name, captures_view, placeholder_regex, placeholder_regex_str, placeholder_scan,
    regex_captures, replace_known, PlaceholderKind,
};
use crate::engine::BztError;
use crate::strmap::StrMap;
use crate::text::{chars_of, replace_all_chars, string_of};
use vstd::prelude::*;
use vstd::string::StringExecFns;

verus! {

/// The position of the first capture, from `i` on, with a sensitive name.
pub open spec fn first_sensitive(caps: Seq<(Seq<char>, Option<Seq<char>>)>, i: int) -> Option<int>
    decreases caps.len() - i,
{
    if i < 0 || i >= caps.len() {
        None
    } else if sensitive_name(cap_name(caps[i])) {
        Some(i)
    } else {
        first_sensitive(caps, i + 1)
    }
}

/// `e` refuses variable `var` as sensitive.
pub open spec fn blocked_error(e: BztError, var: Seq<char>) -> bool {
    e matches BztError::Environment { var: v, reason } && v@ == var && reason@
        == "access to sensitive environment variable is blocked"@
}

/// The value of `${env.NAME}`: the session variable when set, else the
/// environment variable when set, else empty.
pub open spec fn env_value(
    vars: Map<Seq<char>, String>,
    env: Map<Seq<char>, String>,
    n: Seq<char>,
) -> Seq<char> {
    if vars.contains_key(n) {
        vars[n]@
    } else if env.contains_key(n) {
        env[n]@
    } else {
        Seq::empty()
    }
}

/// `${env.NAME}` resolution of `input`: the first placeholder with a
/// sensitive name makes the error (its name); else every placeholder is
/// replaced, in turn, by its value.
pub open spec fn env_resolution(
    input: Seq<char>,
    vars: Map<Seq<char>, String>,
    env: Map<Seq<char>, String>,
) -> Result<Seq<char>, Seq<char>> {
    let caps = placeholder_scan(PlaceholderKind::EnvPrefixed, input, 0);
    match first_sensitive(caps, 0) {
        Some(i) => Err(cap_name(caps[i])),
        None => Ok(
            replace_known(input, caps, |n: Seq<char>| Some(env_value(vars, env, n))),
        ),
    }
}

/// When [`first_sensitive`] finds nothing from `i` on, no capture from `i`
/// on has a sensitive name.
proof fn lemma_first_sensitive_none(caps: Seq<(Seq<char>, Option<Seq<char>>)>, i: int)
    requires
        0 <= i,
        first_sensitive(caps, i) is None,
    ensures
        forall|j: int| i <= j < caps.len() ==> !sensitive_name(cap_name(#[trigger] caps[j])),
    decreases caps.len() - i,
{
    if i < caps.len() {
        lemma_first_sensitive_none(caps, i + 1);
    }
}

/// A resolution that succeeds read no sensitive variable: no placeholder of
/// the input names one; and one that fails names a sensitive variable.
pub proof fn lemma_resolution_never_reads_sensitive(
    input: Seq<char>,
    vars: Map<Seq<char>, String>,
    env: Map<Seq<char>, String>,
)
    ensures
        env_resolution(input, vars, env) is Ok ==> forall|j: int|
            0 <= j < placeholder_scan(PlaceholderKind::EnvPrefixed, input, 0).len() ==> !sensitive_name(
                cap_name(#[trigger] placeholder_scan(PlaceholderKind::EnvPrefixed, input, 0)[j]),
            ),
        env_resolution(input, vars, env) matches Err(n) ==> sensitive_name(n),
{
    let caps = placeholder_scan(PlaceholderKind::EnvPrefixed, input, 0);
    if first_sensitive(caps, 0) is None {
        lemma_first_sensitive_none(caps, 0);
    } else {
        lemma_first_sensitive_some(caps, 0);
    }
}

/// What [`first_sensitive`] finds has a sensitive name.
proof fn lemma_first_sensitive_some(caps: Seq<(Seq<char>, Option<Seq<char>>)>, i: int)
    requires
        first_sensitive(caps, i) is Some,
    ensures
        0 <= first_sensitive(caps, i)->0 < caps.len(),
        sensitive_name(cap_name(caps[first_sensitive(caps, i)->0])),
    decreases caps.len() - i,
{
    if 0 <= i < caps.len() && !sensitive_name(cap_name(caps[i])) {
        lemma_first_sensitive_some(caps, i + 1);
    }
}

/// Resolves environment placeholders.
pub struct EnvironmentLoader;

impl EnvironmentLoader {
    /// Replaces each `${env.NAME}` (ASCII letters, digits and `_`) with the
    /// session variable `NAME`, else the variable of the environment snapshot
    /// `env`, else nothing. A sensitive name fails the whole resolution,
    /// whatever `_blocklist` holds.
    pub fn resolve(
        input: &str,
        variables: &StrMap<String>,
        _blocklist: &[&str],
        env: &StrMap<String>,
    ) -> (r: Result<String, BztError>)
        ensures
            match env_resolution(input@, variables@, env@) {
                Ok(s) => r matches Ok(o) && o@ == s,
                Err(n) => r matches Err(e) && blocked_error(e, n),
            },
    {
        let ghost lookup = |n: Seq<char>| Some(env_value(variables@, env@, n));
        let pattern = placeholder_regex_str(PlaceholderKind::EnvPrefixed);
        let caps = regex_captures(pattern, input);
        assert(pattern@ == placeholder_regex(PlaceholderKind::EnvPrefixed));
        let caps = match caps {
            Some(c) => c,
            None => {
                return Ok(String::from_str(input));
            },
        };
        let ghost all = captures_view(caps@);
        proof {
            lemma_scan_well_formed(PlaceholderKind::EnvPrefixed, input@, 0);
        }
        let mut out = chars_of(input);
        assert(all.skip(0) =~= all);
        let mut i: usize = 0;
        while i < caps.len()
            invariant
                i <= caps@.len(),
                all == captures_view(caps@),
                all == placeholder_scan(PlaceholderKind::EnvPrefixed, input@, 0),
                lookup == (|n: Seq<char>| Some(env_value(variables@, env@, n))),
                forall|j: int|
                    0 <= j < all.len() ==> (#[trigger] all[j]).0.len() > 0 && all[j].1 is Some,
                replace_known(out@, all.skip(i as int), lookup) == replace_known(
                    input@,
                    all,
                    lookup,
                ),
                first_sensitive(all, 0) == first_sensitive(all, i as int),
            decreases caps@.len() - i,
        {
            assert(all.skip(i as int).drop_first() =~= all.skip(i + 1));
            assert(all.skip(i as int)[0] == all[i as int]);
            let (whole, name) = &caps[i];
            match name {
                Some(n) => {
                    assert(cap_name(all[i as int]) == n@);
                    if is_sensitive_var(n.as_str()) {
                        return Err(
                            BztError::Environment {
                                var: n.clone(),
                                reason: String::from_str(
                                    "access to sensitive environment variable is blocked",
                                ),
                            },
                        );
                    }
                    let val: String = match variables.get(n.as_str()) {
                        Some(v) => v.clone(),
                        None => match env.get(n.as_str()) {
                            Some(v) => v.clone(),
                            None => String::new(),
                        },
                    };
                    let w = chars_of(whole.as_str());
                    let vv = chars_of(val.as_str());
                    out = replace_all_chars(&out, &w, &vv);
                },
                None => {},
            }
            i = i + 1;
        }
        assert(all.skip(i as int) =~= Seq::<(Seq<char>, Option<Seq<char>>)>::empty());
        Ok(string_of(&out))
    }
}

} // verus!
