//! Substitution of `${name}` placeholders by session variables.

use crate::engine::patterns::{
    placeholder_regex, placeholder_regex_str, placeholder_scan, regex_captures, PlaceholderKind,
    captures_view, placeholder_at, placeholder_prefix, name_run,
};
use crate::strmap::StrMap;
use crate::text::{chars_of, replace_all, replace_all_chars, string_of};
use vstd::prelude::*;

verus! {

/// Applies the captures in order to `acc`: each capture whose name has a
/// value replaces every occurrence of the capture's whole text, in the text
/// as it stands by then, with that value; the others change nothing.
pub open spec fn substitute(
    acc: Seq<char>,
    caps: Seq<(Seq<char>, Option<Seq<char>>)>,
    vars: Map<Seq<char>, String>,
) -> Seq<char>
    decreases caps.len(),
{
    if caps.len() == 0 {
        acc
    } else {
        let next = match caps[0].1 {
            Some(n) => if vars.contains_key(n) {
                replace_all(acc, caps[0].0, vars[n]@)
            } else {
                acc
            },
            None => acc,
        };
        substitute(next, caps.drop_first(), vars)
    }
}

/// The text that interpolation makes of `input` with `vars`.
pub open spec fn interpolated(input: Seq<char>, vars: Map<Seq<char>, String>) -> Seq<char> {
    substitute(input, placeholder_scan(PlaceholderKind::Variable, input, 0), vars)
}

/// Every placeholder found has a non-empty text and a name.
pub proof fn lemma_scan_well_formed(k: PlaceholderKind, s: Seq<char>, i: int)
    ensures
        forall|j: int|
            0 <= j < placeholder_scan(k, s, i).len() ==> (#[trigger] placeholder_scan(k, s, i)[j]).0.len()
                > 0 && placeholder_scan(k, s, i)[j].1 is Some,
    decreases s.len() - i,
{
    if i < 0 || i >= s.len() {
    } else if placeholder_at(k, s, i) {
        let j = i + placeholder_prefix(k).len();
        let n = name_run(k, s, j);
        lemma_scan_well_formed(k, s, j + n + 1);
        let rest = placeholder_scan(k, s, j + n + 1);
        let head = seq![(s.subrange(i, j + n + 1), Some(s.subrange(j, j + n)))];
        assert forall|m: int| 0 <= m < (head + rest).len() implies (#[trigger] (head + rest)[m]).0.len()
            > 0 && (head + rest)[m].1 is Some by {
            if m > 0 {
                assert((head + rest)[m] == rest[m - 1]);
            }
        }
    } else {
        lemma_scan_well_formed(k, s, i + 1);
    }
}

/// Captures none of whose names has a value leave the text unchanged.
pub proof fn lemma_substitute_unbound(
    acc: Seq<char>,
    caps: Seq<(Seq<char>, Option<Seq<char>>)>,
    vars: Map<Seq<char>, String>,
)
    requires
        forall|j: int|
            0 <= j < caps.len() ==> match (#[trigger] caps[j]).1 {
                Some(n) => !vars.contains_key(n),
                None => true,
            },
    ensures
        substitute(acc, caps, vars) == acc,
    decreases caps.len(),
{
    if caps.len() > 0 {
        assert forall|j: int| 0 <= j < caps.drop_first().len() implies match (
        #[trigger] caps.drop_first()[j]).1 {
            Some(n) => !vars.contains_key(n),
            None => true,
        } by {
            assert(caps.drop_first()[j] == caps[j + 1]);
        }
        let _ = caps[0];
        lemma_substitute_unbound(acc, caps.drop_first(), vars);
    }
}

/// Interpolation leaves text without placeholders unchanged, and any text
/// when no variable is defined.
pub proof fn lemma_interpolation_identity(input: Seq<char>, vars: Map<Seq<char>, String>)
    requires
        placeholder_scan(PlaceholderKind::Variable, input, 0).len() == 0 || vars.dom().is_empty(),
    ensures
        interpolated(input, vars) == input,
{
    let caps = placeholder_scan(PlaceholderKind::Variable, input, 0);
    if caps.len() > 0 {
        assert forall|j: int| 0 <= j < caps.len() implies match (#[trigger] caps[j]).1 {
            Some(n) => !vars.contains_key(n),
            None => true,
        } by {
            match caps[j].1 {
                Some(n) => {
                    assert(!vars.dom().contains(n));
                },
                None => {},
            }
        }
        lemma_substitute_unbound(input, caps, vars);
    }
}

/// Substitutes `${name}` placeholders with session variables.
pub struct Interpolator;

impl Interpolator {
    /// Replaces each `${name}` placeholder (ASCII letters, digits and `_`)
    /// whose name has a value in `variables`; unknown names stay as written.
    pub fn interpolate(input: &str, variables: &StrMap<String>) -> (r: String)
        ensures
            r@ == interpolated(input@, variables@),
    {
        let pattern = placeholder_regex_str(PlaceholderKind::Variable);
        let caps = regex_captures(pattern, input);
        assert(pattern@ == placeholder_regex(PlaceholderKind::Variable));
        let caps = match caps {
            Some(c) => c,
            None => {
                return string_of(&chars_of(input));
            },
        };
        let ghost all = captures_view(caps@);
        proof {
            lemma_scan_well_formed(PlaceholderKind::Variable, input@, 0);
        }
        let mut out = chars_of(input);
        assert(all.skip(0) =~= all);
        let mut i: usize = 0;
        while i < caps.len()
            invariant
                i <= caps@.len(),
                all == captures_view(caps@),
                all == placeholder_scan(PlaceholderKind::Variable, input@, 0),
                forall|j: int|
                    0 <= j < all.len() ==> (#[trigger] all[j]).0.len() > 0 && all[j].1 is Some,
                substitute(out@, all.skip(i as int), variables@) == interpolated(
                    input@,
                    variables@,
                ),
            decreases caps@.len() - i,
        {
            let ghost before = out@;
            assert(all.skip(i as int).drop_first() =~= all.skip(i + 1));
            assert(all.skip(i as int)[0] == all[i as int]);
            let (whole, name) = &caps[i];
            match name {
                Some(n) => {
                    match variables.get(n.as_str()) {
                        Some(val) => {
                            let w = chars_of(whole.as_str());
                            let vv = chars_of(val.as_str());
                            out = replace_all_chars(&out, &w, &vv);
                        },
                        None => {},
                    }
                },
                None => {},
            }
            i = i + 1;
        }
        assert(all.skip(i as int) =~= Seq::<(Seq<char>, Option<Seq<char>>)>::empty());
        string_of(&out)
    }
}

} // verus!
