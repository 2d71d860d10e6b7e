//! Regular-expression matching, through the `regex` crate.
//!
//! Besides the general calls, the engines search text for `${name}`-style
//! placeholders with four fixed expressions; for those the matches are
//! described exactly by [`placeholder_scan`].

use crate::text::{occurs_at, replace_all};
use vstd::prelude::*;

verus! {

/// The placeholder forms that the engines recognise.
#[derive(Debug, Clone, Copy, PartialEq, Eq, Structural)]
pub enum PlaceholderKind {
    /// `${name}` with an ASCII letter, digit or `_` name.
    Variable,
    /// `${NAME}` with an upper-case ASCII letter, digit or `_` name.
    UpperEnv,
    /// `${name}` with a lower-case ASCII letter, digit or `_` name.
    RecordField,
    /// `${env.NAME}` with an ASCII letter, digit or `_` name.
    EnvPrefixed,
}

/// The regular expression that searches for a placeholder kind.
pub open spec fn placeholder_regex(k: PlaceholderKind) -> Seq<char> {
    match k {
        PlaceholderKind::Variable => "\\$\\{([a-zA-Z0-9_]+)\\}"@,
        PlaceholderKind::UpperEnv => "\\$\\{([A-Z0-9_]+)\\}"@,
        PlaceholderKind::RecordField => "\\$\\{([a-z0-9_]+)\\}"@,
        PlaceholderKind::EnvPrefixed => "\\$\\{env\\.([A-Za-z0-9_]+)\\}"@,
    }
}

/// The regular expression text of a placeholder kind.
pub fn placeholder_regex_str(k: PlaceholderKind) -> (r: &'static str)
    ensures
        r@ == placeholder_regex(k),
{
    match k {
        PlaceholderKind::Variable => "\\$\\{([a-zA-Z0-9_]+)\\}",
        PlaceholderKind::UpperEnv => "\\$\\{([A-Z0-9_]+)\\}",
        PlaceholderKind::RecordField => "\\$\\{([a-z0-9_]+)\\}",
        PlaceholderKind::EnvPrefixed => "\\$\\{env\\.([A-Za-z0-9_]+)\\}",
    }
}

/// What opens a placeholder of a kind.
pub open spec fn placeholder_prefix(k: PlaceholderKind) -> Seq<char> {
    match k {
        PlaceholderKind::EnvPrefixed => seq!['$', '{', 'e', 'n', 'v', '.'],
        _ => seq!['$', '{'],
    }
}

/// A character that may appear in the name of a placeholder of a kind.
pub open spec fn placeholder_name_char(k: PlaceholderKind, c: char) -> bool {
    let digit_or_underscore = ('0' <= c && c <= '9') || c == '_';
    let upper = 'A' <= c && c <= 'Z';
    let lower = 'a' <= c && c <= 'z';
    match k {
        PlaceholderKind::Variable => digit_or_underscore || upper || lower,
        PlaceholderKind::UpperEnv => digit_or_underscore || upper,
        PlaceholderKind::RecordField => digit_or_underscore || lower,
        PlaceholderKind::EnvPrefixed => digit_or_underscore || upper || lower,
    }
}

/// The number of consecutive name characters of `s` from position `j`.
pub open spec fn name_run(k: PlaceholderKind, s: Seq<char>, j: int) -> nat
    decreases s.len() - j,
{
    if 0 <= j < s.len() && placeholder_name_char(k, s[j]) {
        1 + name_run(k, s, j + 1)
    } else {
        0
    }
}

/// A placeholder of kind `k` starts at position `i` of `s`: the prefix, one
/// or more name characters, then `}`.
pub open spec fn placeholder_at(k: PlaceholderKind, s: Seq<char>, i: int) -> bool {
    let j = i + placeholder_prefix(k).len();
    let n = name_run(k, s, j);
    &&& occurs_at(s, placeholder_prefix(k), i)
    &&& n > 0
    &&& j + n < s.len()
    &&& s[j + n] == '}'
}

/// The placeholders of kind `k` in `s` from position `i`, leftmost first and
/// not overlapping, each as the whole placeholder text and its name.
pub open spec fn placeholder_scan(k: PlaceholderKind, s: Seq<char>, i: int) -> Seq<
    (Seq<char>, Option<Seq<char>>),
>
    decreases s.len() - i,
{
    if i < 0 || i >= s.len() {
        Seq::empty()
    } else if placeholder_at(k, s, i) {
        let j = i + placeholder_prefix(k).len();
        let n = name_run(k, s, j);
        seq![(s.subrange(i, j + n + 1), Some(s.subrange(j, j + n)))] + placeholder_scan(
            k,
            s,
            j + n + 1,
        )
    } else {
        placeholder_scan(k, s, i + 1)
    }
}

/// The views of a list of captures.
pub open spec fn captures_view(v: Seq<(String, Option<String>)>) -> Seq<
    (Seq<char>, Option<Seq<char>>),
> {
    v.map_values(
        |c: (String, Option<String>)|
            (
                c.0@,
                match c.1 {
                    Some(g) => Some(g@),
                    None => None,
                },
            ),
    )
}

/// The name of a capture (empty when it has none).
pub open spec fn cap_name(c: (Seq<char>, Option<Seq<char>>)) -> Seq<char> {
    match c.1 {
        Some(n) => n,
        None => Seq::empty(),
    }
}

/// Applies the captures in order to `acc`: each capture whose name `lookup`
/// gives a value for replaces every occurrence of the capture's whole text,
/// in the text as it stands by then, with that value; the others change
/// nothing.
pub open spec fn replace_known(
    acc: Seq<char>,
    caps: Seq<(Seq<char>, Option<Seq<char>>)>,
    lookup: spec_fn(Seq<char>) -> Option<Seq<char>>,
) -> Seq<char>
    decreases caps.len(),
{
    if caps.len() == 0 {
        acc
    } else {
        let next = match lookup(cap_name(caps[0])) {
            Some(v) => replace_all(acc, caps[0].0, v),
            None => acc,
        };
        replace_known(next, caps.drop_first(), lookup)
    }
}

/// The matches of regular expression `pattern` in `text`, as found by the
/// `regex` crate: `None` when the pattern does not compile, else each
/// non-overlapping match, leftmost first, as its whole text and the text of
/// its first group.
pub uninterp spec fn regex_capture_list(pattern: Seq<char>, text: Seq<char>) -> Option<
    Seq<(Seq<char>, Option<Seq<char>>)>,
>;

/// Whether regular expression `pattern` matches anywhere in `text`, as the
/// `regex` crate decides it: `None` when the pattern does not compile.
pub uninterp spec fn regex_match(pattern: Seq<char>, text: Seq<char>) -> Option<bool>;

/// The first match of `pattern` in `text`, as the `regex` crate finds it:
/// `None` when the pattern does not compile, `Some(None)` when nothing
/// matches, else the whole match and the text of its first group.
pub uninterp spec fn regex_first_match(pattern: Seq<char>, text: Seq<char>) -> Option<
    Option<(Seq<char>, Option<Seq<char>>)>,
>;

/// All matches of `pattern` in `text` (`regex::Regex::new`, then
/// `Regex::captures_iter`), each as its whole text and its first group.
/// The contract names the result, and states what the crate's documented
/// leftmost-first, non-overlapping search gives for the four placeholder
/// expressions, which compile.
#[verifier::external_body]
pub(crate) fn regex_captures(pattern: &str, text: &str) -> (r: Option<Vec<(String, Option<String>)>>)
    ensures
        match r {
            Some(v) => regex_capture_list(pattern@, text@) == Some(captures_view(v@)),
            None => regex_capture_list(pattern@, text@) is None,
        },
        forall|k: PlaceholderKind|
            pattern@ == #[trigger] placeholder_regex(k) ==> r is Some && captures_view(r->0@)
                == placeholder_scan(k, text@, 0),
{
    let re = regex::Regex::new(pattern).ok()?;
    Some(
        re.captures_iter(text).map(
            |c| (c[0].to_string(), c.get(1).map(|g| g.as_str().to_string())),
        ).collect(),
    )
}

/// Whether `pattern` matches anywhere in `text` (`regex::Regex::new`, then
/// `Regex::is_match`); `None` when the pattern does not compile. The
/// contract names the result.
#[verifier::external_body]
pub(crate) fn regex_is_match(pattern: &str, text: &str) -> (r: Option<bool>)
    ensures
        r == regex_match(pattern@, text@),
{
    regex::Regex::new(pattern).ok().map(|re| re.is_match(text))
}

/// The first match of `pattern` in `text` (`regex::Regex::new`, then
/// `Regex::captures`), as its whole text and its first group. The contract
/// names the result.
#[verifier::external_body]
pub(crate) fn regex_first(pattern: &str, text: &str) -> (r: Option<Option<(String, Option<String>)>>)
    ensures
        regex_first_match(pattern@, text@) == match r {
            None => None,
            Some(None) => Some(None),
            Some(Some(c)) => Some(Some(captures_view(seq![c])[0])),
        },
{
    let re = regex::Regex::new(pattern).ok()?;
    Some(re.captures(text).map(|c| (c[0].to_string(), c.get(1).map(|g| g.as_str().to_string()))))
}

} // verus!
