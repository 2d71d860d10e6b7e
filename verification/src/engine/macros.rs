//! Macros in request texts: generated values (`${faker.email}`,
//! `${faker.name}`, `${faker.word}`, `${uuid}`), environment variables
//! (`${env.NAME}` and `${NAME}`) and data-record fields (`${field}`).
//!
//! Environment variables whose names look like credentials are refused,
//! never read: the whole evaluation fails with an environment error.

use crate::engine::env::{blocked_error, env_resolution, first_sensitive, EnvironmentLoader};
use crate::engine::interpolation::lemma_scan_well_formed;
use crate::engine::patterns::{
    cap_name, captures_view, placeholder_regex, placeholder_regex_str, placeholder_scan,
    regex_captures, replace_known, PlaceholderKind,
};
use crate::engine::BztError;
use crate::strmap::StrMap;
use crate::text::{
    chars_of, contains, ends_with, ends_with_in, find_in, lemma_find_first, replace_all,
    replace_all_chars, starts_with, starts_with_in, str_eq, string_of,
};
use fake::Fake;
use vstd::prelude::*;
use vstd::string::StringExecFns;

verus! {

/// How a sensitive pattern is compared with an upper-cased name.
#[derive(Debug, Clone, Copy, PartialEq, Eq, Structural)]
pub enum MatchKind {
    /// The name is the pattern.
    Exact,
    /// The name starts with the pattern.
    StartsWith,
    /// The name ends with the pattern.
    EndsWith,
    /// The name contains the pattern.
    Contains,
}

/// The patterns of sensitive variable names, in order.
pub open spec fn sensitive_patterns() -> Seq<(MatchKind, Seq<char>)> {
    seq![
        (MatchKind::StartsWith, "AWS_"@),
        (MatchKind::StartsWith, "SECRET"@),
        (MatchKind::Exact, "KEY"@),
        (MatchKind::EndsWith, "_KEY"@),
        (MatchKind::EndsWith, "_TOKEN"@),
        (MatchKind::EndsWith, "_PASSWORD"@),
        (MatchKind::Contains, "PASSWORD"@),
        (MatchKind::StartsWith, "PRIVATE"@),
        (MatchKind::Exact, "DATABASE_URL"@),
        (MatchKind::StartsWith, "DB_"@),
    ]
}

/// Upper-cased name `u` matches pattern `p`.
pub open spec fn pattern_matches(p: (MatchKind, Seq<char>), u: Seq<char>) -> bool {
    match p.0 {
        MatchKind::Exact => u == p.1,
        MatchKind::StartsWith => starts_with(u, p.1),
        MatchKind::EndsWith => ends_with(u, p.1),
        MatchKind::Contains => contains(u, p.1),
    }
}

/// Upper-cased name `u` matches some sensitive pattern.
pub open spec fn sensitive_upper(u: Seq<char>) -> bool {
    exists|i: int| 0 <= i < sensitive_patterns().len() && pattern_matches(#[trigger] sensitive_patterns()[i], u)
}

/// The upper-case form of a text as std's `str::to_uppercase` gives it
/// (Unicode upper-casing).
pub uninterp spec fn unicode_uppercase(s: Seq<char>) -> Seq<char>;

/// An ASCII character.
pub open spec fn is_ascii_char(c: char) -> bool {
    (c as u32) < 128
}

/// `s` with ASCII lower-case letters turned upper-case.
pub open spec fn ascii_upper(s: Seq<char>) -> Seq<char> {
    s.map_values(|c: char| if 'a' <= c && c <= 'z' { ((c as u32) - 32) as char } else { c })
}

/// Upper-cases `s` (std's `str::to_uppercase`). The contract names the
/// result, and states that on ASCII text it upper-cases the ASCII letters
/// and keeps every other character.
#[verifier::external_body]
fn to_uppercase(s: &str) -> (r: String)
    ensures
        r@ == unicode_uppercase(s@),
        all_ascii(s@) ==> r@ == ascii_upper(s@),
{
    s.to_uppercase()
}

/// A variable name is sensitive when its upper-cased form matches one of the
/// sensitive patterns. An all-ASCII name upper-cases letter by letter; any
/// other goes through Unicode upper-casing.
pub open spec fn sensitive_name(n: Seq<char>) -> bool {
    if all_ascii(n) {
        sensitive_upper(ascii_upper(n))
    } else {
        sensitive_upper(unicode_uppercase(n))
    }
}

/// Every character of `s` is ASCII.
pub open spec fn all_ascii(s: Seq<char>) -> bool {
    forall|i: int| 0 <= i < s.len() ==> is_ascii_char(#[trigger] s[i])
}

/// The texts of a pattern table.
pub open spec fn table_view(v: Seq<(MatchKind, &str)>) -> Seq<(MatchKind, Seq<char>)> {
    v.map_values(|p: (MatchKind, &str)| (p.0, p.1@))
}

fn sensitive_table() -> (v: Vec<(MatchKind, &'static str)>)
    ensures
        table_view(v@) == sensitive_patterns(),
{
    let v = vec![
        (MatchKind::StartsWith, "AWS_"),
        (MatchKind::StartsWith, "SECRET"),
        (MatchKind::Exact, "KEY"),
        (MatchKind::EndsWith, "_KEY"),
        (MatchKind::EndsWith, "_TOKEN"),
        (MatchKind::EndsWith, "_PASSWORD"),
        (MatchKind::Contains, "PASSWORD"),
        (MatchKind::StartsWith, "PRIVATE"),
        (MatchKind::Exact, "DATABASE_URL"),
        (MatchKind::StartsWith, "DB_"),
    ];
    assert(table_view(v@) =~= sensitive_patterns());
    v
}

/// The texts of the sensitive-name patterns, in order (whatever the way each
/// is compared).
pub fn sensitive_blocklist() -> (v: Vec<&'static str>)
    ensures
        v@.len() == sensitive_patterns().len(),
        forall|i: int| 0 <= i < v@.len() ==> (#[trigger] v@[i])@ == sensitive_patterns()[i].1,
{
    let table = sensitive_table();
    let mut v: Vec<&'static str> = Vec::new();
    let mut i: usize = 0;
    while i < table.len()
        invariant
            i <= table@.len(),
            table_view(table@) == sensitive_patterns(),
            v@.len() == i,
            forall|j: int| 0 <= j < i ==> (#[trigger] v@[j])@ == sensitive_patterns()[j].1,
        decreases table@.len() - i,
    {
        assert(table_view(table@)[i as int] == (table@[i as int].0, table@[i as int].1@));
        v.push(table[i].1);
        i = i + 1;
    }
    v
}

/// Whether upper-cased name `u` matches pattern `p`.
fn pattern_matches_exec(kind: MatchKind, pat: &str, u: &Vec<char>) -> (b: bool)
    ensures
        b == pattern_matches((kind, pat@), u@),
{
    let p = chars_of(pat);
    assert(u@.subrange(0, u@.len() as int) =~= u@);
    match kind {
        MatchKind::Exact => {
            let s = string_of(u);
            str_eq(s.as_str(), pat)
        },
        MatchKind::StartsWith => starts_with_in(u, 0, u.len(), &p),
        MatchKind::EndsWith => ends_with_in(u, 0, u.len(), &p),
        MatchKind::Contains => {
            proof {
                lemma_find_first(u@, p@);
            }
            find_in(u, 0, u.len(), &p).is_some()
        },
    }
}

/// Whether `name`, upper-cased, matches any sensitive pattern.
fn matches_any_pattern(name: &str) -> (b: bool)
    ensures
        b == sensitive_name(name@),
{
    let upper = to_uppercase(name);
    let u = chars_of(upper.as_str());
    assert(sensitive_name(name@) == sensitive_upper(u@));
    let table = sensitive_table();
    let mut i: usize = 0;
    while i < table.len()
        invariant
            i <= table@.len(),
            table_view(table@) == sensitive_patterns(),
            sensitive_name(name@) == sensitive_upper(u@),
            forall|j: int| 0 <= j < i ==> !pattern_matches(#[trigger] sensitive_patterns()[j], u@),
        decreases table@.len() - i,
    {
        assert(table_view(table@)[i as int] == (table@[i as int].0, table@[i as int].1@));
        let (kind, pat) = table[i];
        if pattern_matches_exec(kind, pat, &u) {
            assert(pattern_matches(sensitive_patterns()[i as int], u@));
            return true;
        }
        i = i + 1;
    }
    false
}

/// Whether an environment variable name is sensitive: its upper-cased form
/// (for an all-ASCII name, the name with its ASCII letters upper-cased)
/// starts with `AWS_`, `SECRET`, `PRIVATE` or `DB_`, ends with `_KEY`,
/// `_TOKEN` or `_PASSWORD`, contains `PASSWORD`, or is `KEY` or
/// `DATABASE_URL`. Sensitive variables are never resolved.
pub fn is_sensitive_var(name: &str) -> (b: bool)
    ensures
        b == sensitive_name(name@),
{
    matches_any_pattern(name)
}

/// The value to log for a variable: `[REDACTED]` when its name is sensitive.
pub fn mask_env_value(name: &str, value: &str) -> (s: String)
    ensures
        s@ == (if sensitive_name(name@) {
            "[REDACTED]"@
        } else {
            value@
        }),
{
    if is_sensitive_var(name) {
        String::from_str("[REDACTED]")
    } else {
        String::from_str(value)
    }
}

// ---------------------------------------------------------------------------
// Generated values
// ---------------------------------------------------------------------------

/// The values that generated macros stand for in one evaluation.
#[derive(Debug, Clone)]
pub struct GeneratedValues {
    pub email: String,
    pub name: String,
    pub word: String,
    pub uuid: String,
}

/// A fake e-mail address at a reserved example domain (the `fake` crate's
/// `SafeEmail`); it holds an `@`.
#[verifier::external_body]
fn fake_safe_email() -> (r: String)
    ensures
        contains(r@, seq!['@']),
{
    fake::faker::internet::en::SafeEmail().fake::<String>()
}

/// A fake person name (the `fake` crate's `Name`, English: a first name,
/// a space and a last name); random, and it holds a space.
#[verifier::external_body]
fn fake_name() -> (r: String)
    ensures
        contains(r@, seq![' ']),
{
    fake::faker::name::en::Name().fake::<String>()
}

/// A fake word (the `fake` crate's `Word`, one entry of its English lorem
/// list); random, not empty, and it holds no space.
#[verifier::external_body]
fn fake_word() -> (r: String)
    ensures
        r@.len() > 0,
        !contains(r@, seq![' ']),
{
    fake::faker::lorem::en::Word().fake::<String>()
}

/// A random version-4 UUID in its hyphenated form (`uuid::Uuid::new_v4`,
/// then `to_string`), 36 characters long.
#[verifier::external_body]
fn new_uuid() -> (r: String)
    ensures
        r@.len() == 36,
{
    uuid::Uuid::new_v4().to_string()
}

/// `s` with every `macro_text` replaced by `value`, when it holds one.
pub open spec fn replace_if_present(s: Seq<char>, macro_text: Seq<char>, value: Seq<char>) -> Seq<
    char,
> {
    if contains(s, macro_text) {
        replace_all(s, macro_text, value)
    } else {
        s
    }
}

/// `input` with the generated macros replaced by the values of `g`.
pub open spec fn generated_replaced(input: Seq<char>, g: GeneratedValues) -> Seq<char> {
    let a = replace_if_present(input, "${faker.email}"@, g.email@);
    let b = replace_if_present(a, "${faker.name}"@, g.name@);
    let c = replace_if_present(b, "${faker.word}"@, g.word@);
    replace_if_present(c, "${uuid}"@, g.uuid@)
}

/// The generated values for `input` have the forms their generators give,
/// whenever `input` asks for them: the e-mail address holds an `@`, the
/// name holds a space (first and last name), the word is not empty and
/// holds no space, and the UUID is 36 characters long.
pub open spec fn generated_well_formed(input: Seq<char>, g: GeneratedValues) -> bool {
    &&& contains(input, "${faker.email}"@) ==> contains(g.email@, seq!['@'])
    &&& contains(input, "${faker.name}"@) ==> contains(g.name@, seq![' '])
    &&& contains(input, "${faker.word}"@) ==> g.word@.len() > 0 && !contains(g.word@, seq![' '])
    &&& contains(input, "${uuid}"@) ==> g.uuid@.len() == 36
}

/// `input` holds no generated macro.
pub open spec fn no_generated_macros(input: Seq<char>) -> bool {
    &&& !contains(input, "${faker.email}"@)
    &&& !contains(input, "${faker.name}"@)
    &&& !contains(input, "${faker.word}"@)
    &&& !contains(input, "${uuid}"@)
}

/// The value an environment snapshot gives a name, if it has one.
pub open spec fn env_lookup(env: Map<Seq<char>, String>) -> spec_fn(Seq<char>) -> Option<Seq<char>> {
    |n: Seq<char>| if env.contains_key(n) { Some(env[n]@) } else { None }
}

/// `${NAME}` resolution: the first placeholder with a sensitive name makes
/// the error (its name); else each placeholder whose variable is set is
/// replaced by its value, the others stay.
pub open spec fn upper_env_resolution(text: Seq<char>, env: Map<Seq<char>, String>) -> Result<
    Seq<char>,
    Seq<char>,
> {
    let caps = placeholder_scan(PlaceholderKind::UpperEnv, text, 0);
    match first_sensitive(caps, 0) {
        Some(i) => Err(cap_name(caps[i])),
        None => Ok(replace_known(text, caps, env_lookup(env))),
    }
}

/// `${field}` resolution with a data record: each placeholder whose field
/// the record has is replaced by the field's value, the others stay.
pub open spec fn record_resolution(text: Seq<char>, record: Option<Map<Seq<char>, String>>) -> Seq<
    char,
> {
    match record {
        Some(r) => replace_known(text, placeholder_scan(PlaceholderKind::RecordField, text, 0), env_lookup(r)),
        None => text,
    }
}

/// Macro evaluation: generated values first, then `${env.NAME}` (from the
/// environment only), then `${NAME}`, then record fields. `Err` carries the
/// sensitive variable name that stopped it.
pub open spec fn macro_expansion(
    input: Seq<char>,
    g: GeneratedValues,
    record: Option<Map<Seq<char>, String>>,
    env: Map<Seq<char>, String>,
) -> Result<Seq<char>, Seq<char>> {
    match env_resolution(generated_replaced(input, g), Map::empty(), env) {
        Err(n) => Err(n),
        Ok(b) => match upper_env_resolution(b, env) {
            Err(n) => Err(n),
            Ok(c) => Ok(record_resolution(c, record)),
        },
    }
}

/// `r` is what outcome `e` says: the text, or the error refusing the named
/// variable.
pub open spec fn expansion_outcome(r: Result<String, BztError>, e: Result<Seq<char>, Seq<char>>) -> bool {
    match e {
        Ok(s) => r matches Ok(o) && o@ == s,
        Err(n) => r matches Err(err) && blocked_error(err, n),
    }
}

/// The view of an optional record.
pub open spec fn record_view(record: Option<&StrMap<String>>) -> Option<Map<Seq<char>, String>> {
    match record {
        Some(r) => Some(r@),
        None => None,
    }
}

fn replace_if_present_exec(s: String, macro_text: &str, value: &String) -> (r: String)
    requires
        macro_text@.len() > 0,
    ensures
        r@ == replace_if_present(s@, macro_text@, value@),
{
    let v = chars_of(s.as_str());
    let m = chars_of(macro_text);
    let pos = find_in(&v, 0, v.len(), &m);
    proof {
        assert(v@.subrange(0, v@.len() as int) =~= v@);
        lemma_find_first(v@, m@);
    }
    if pos.is_some() {
        let w = chars_of(value.as_str());
        let out = replace_all_chars(&v, &m, &w);
        string_of(&out)
    } else {
        s
    }
}

/// Replaces each `kind` placeholder of `text` whose name `lookup` knows, in
/// turn; with `refuse_sensitive`, fails at the first sensitive name instead.
fn resolve_known(
    text: String,
    kind: PlaceholderKind,
    refuse_sensitive: bool,
    lookup: &StrMap<String>,
) -> (r: Result<String, BztError>)
    ensures
        refuse_sensitive ==> match first_sensitive(placeholder_scan(kind, text@, 0), 0) {
            Some(i) => r matches Err(e) && blocked_error(
                e,
                cap_name(placeholder_scan(kind, text@, 0)[i]),
            ),
            None => r matches Ok(o) && o@ == replace_known(
                text@,
                placeholder_scan(kind, text@, 0),
                env_lookup(lookup@),
            ),
        },
        !refuse_sensitive ==> (r matches Ok(o) && o@ == replace_known(
            text@,
            placeholder_scan(kind, text@, 0),
            env_lookup(lookup@),
        )),
{
    let pattern = placeholder_regex_str(kind);
    let caps = regex_captures(pattern, text.as_str());
    assert(pattern@ == placeholder_regex(kind));
    let caps = match caps {
        Some(c) => c,
        None => {
            return Ok(text);
        },
    };
    let ghost all = captures_view(caps@);
    proof {
        lemma_scan_well_formed(kind, text@, 0);
    }
    let mut out = chars_of(text.as_str());
    assert(all.skip(0) =~= all);
    let mut i: usize = 0;
    while i < caps.len()
        invariant
            i <= caps@.len(),
            all == captures_view(caps@),
            all == placeholder_scan(kind, text@, 0),
            forall|j: int|
                0 <= j < all.len() ==> (#[trigger] all[j]).0.len() > 0 && all[j].1 is Some,
            replace_known(out@, all.skip(i as int), env_lookup(lookup@)) == replace_known(
                text@,
                all,
                env_lookup(lookup@),
            ),
            refuse_sensitive ==> first_sensitive(all, 0) == first_sensitive(all, i as int),
        decreases caps@.len() - i,
    {
        assert(all.skip(i as int).drop_first() =~= all.skip(i + 1));
        assert(all.skip(i as int)[0] == all[i as int]);
        let (whole, name) = &caps[i];
        match name {
            Some(n) => {
                if refuse_sensitive && is_sensitive_var(n.as_str()) {
                    assert(cap_name(all[i as int]) == n@);
                    return Err(
                        BztError::Environment {
                            var: n.clone(),
                            reason: String::from_str(
                                "access to sensitive environment variable is blocked",
                            ),
                        },
                    );
                }
                match lookup.get(n.as_str()) {
                    Some(val) => {
                        let w = chars_of(whole.as_str());
                        let vv = chars_of(val.as_str());
                        out = replace_all_chars(&out, &w, &vv);
                    },
                    None => {},
                }
            },
            None => {},
        }
        i = i + 1;
    }
    assert(all.skip(i as int) =~= Seq::<(Seq<char>, Option<Seq<char>>)>::empty());
    Ok(string_of(&out))
}

/// Evaluates macros.
pub struct MacroEvaluator;

impl MacroEvaluator {
    /// Evaluates the macros of `input` with the generated values `generated`,
    /// the data record `record` and the environment snapshot `env`, in this
    /// order: generated values, `${env.NAME}`, `${NAME}` (set variables
    /// only), then record fields. A sensitive variable name in an
    /// environment placeholder fails the evaluation.
    pub fn expand(
        input: &str,
        generated: &GeneratedValues,
        record: Option<&StrMap<String>>,
        env: &StrMap<String>,
    ) -> (r: Result<String, BztError>)
        ensures
            expansion_outcome(r, macro_expansion(input@, *generated, record_view(record), env@)),
    {
        proof {
            reveal_strlit("${faker.email}");
            reveal_strlit("${faker.name}");
            reveal_strlit("${faker.word}");
            reveal_strlit("${uuid}");
        }
        let s = String::from_str(input);
        let s = replace_if_present_exec(s, "${faker.email}", &generated.email);
        let s = replace_if_present_exec(s, "${faker.name}", &generated.name);
        let s = replace_if_present_exec(s, "${faker.word}", &generated.word);
        let s = replace_if_present_exec(s, "${uuid}", &generated.uuid);
        let no_vars: StrMap<String> = StrMap::new();
        let blocklist = sensitive_blocklist();
        let s = match EnvironmentLoader::resolve(s.as_str(), &no_vars, blocklist.as_slice(), env) {
            Ok(t) => t,
            Err(e) => {
                return Err(e);
            },
        };
        let s = match resolve_known(s, PlaceholderKind::UpperEnv, true, env) {
            Ok(t) => t,
            Err(e) => {
                return Err(e);
            },
        };
        match record {
            Some(rec) => resolve_known(s, PlaceholderKind::RecordField, false, rec),
            None => Ok(s),
        }
    }

    /// Evaluates the macros of `input` as [`MacroEvaluator::expand`] does,
    /// generating a fresh value for each generated macro that `input` holds.
    /// Without generated macros the result does not depend on them.
    pub fn evaluate(input: &str, record: Option<&StrMap<String>>, env: &StrMap<String>) -> (r:
        Result<String, BztError>)
        ensures
            exists|g: GeneratedValues|
                generated_well_formed(input@, g) && expansion_outcome(
                    r,
                    #[trigger] macro_expansion(input@, g, record_view(record), env@),
                ),
            no_generated_macros(input@) ==> forall|g: GeneratedValues|
                expansion_outcome(r, #[trigger] macro_expansion(input@, g, record_view(record), env@)),
    {
        let g = GeneratedValues {
            email: if crate::text::contains_str(input, "${faker.email}") {
                fake_safe_email()
            } else {
                String::new()
            },
            name: if crate::text::contains_str(input, "${faker.name}") {
                fake_name()
            } else {
                String::new()
            },
            word: if crate::text::contains_str(input, "${faker.word}") {
                fake_word()
            } else {
                String::new()
            },
            uuid: if crate::text::contains_str(input, "${uuid}") {
                new_uuid()
            } else {
                String::new()
            },
        };
        assert(generated_well_formed(input@, g));
        let r = Self::expand(input, &g, record, env);
        proof {
            if no_generated_macros(input@) {
                assert forall|h: GeneratedValues|
                    expansion_outcome(r, #[trigger] macro_expansion(input@, h, record_view(record), env@)) by {
                    assert(generated_replaced(input@, h) == input@);
                    assert(generated_replaced(input@, g) == input@);
                }
            }
        }
        r
    }
}

} // verus!
