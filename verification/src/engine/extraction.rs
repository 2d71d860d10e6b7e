//! Extraction of session variables from responses: by regular expression,
//! JSONPath or XPath, one rule per variable.

use crate::engine::patterns::{regex_first, regex_first_match};
use crate::strmap::StrMap;
use vstd::prelude::*;

verus! {

/// The variables of one virtual user.
#[derive(Debug)]
pub struct UserSession {
    pub variables: StrMap<String>,
}

impl Default for UserSession {
    fn default() -> (s: Self)
        ensures
            s.variables@ == Map::<Seq<char>, String>::empty(),
    {
        UserSession { variables: StrMap::new() }
    }
}

/// The texts of a map's values.
pub open spec fn value_texts(m: Map<Seq<char>, String>) -> Map<Seq<char>, Seq<char>> {
    m.map_values(|s: String| s@)
}

/// The variables after applying the first `k` rules (in the rules' order)
/// to `vars`: a rule whose expression gives a value sets its variable to
/// it; the others change nothing.
pub open spec fn extracted(
    vars: Map<Seq<char>, Seq<char>>,
    names: Seq<Seq<char>>,
    rules: Map<Seq<char>, String>,
    value_of: spec_fn(Seq<char>) -> Option<Seq<char>>,
    k: int,
) -> Map<Seq<char>, Seq<char>>
    decreases k,
{
    if k <= 0 {
        vars
    } else {
        let prev = extracted(vars, names, rules, value_of, k - 1);
        match value_of(rules[names[k - 1]]@) {
            Some(v) => prev.insert(names[k - 1], v),
            None => prev,
        }
    }
}

/// The value a regular expression extracts from `body`: its first group in
/// the first match, else the whole first match; none when it does not
/// compile or does not match.
pub open spec fn regex_value(body: Seq<char>) -> spec_fn(Seq<char>) -> Option<Seq<char>> {
    |re: Seq<char>| match regex_first_match(re, body) {
        Some(Some(m)) => match m.1 {
            Some(g) => Some(g),
            None => Some(m.0),
        },
        _ => None,
    }
}

/// The text of the first node that JSONPath `path` selects in the JSON
/// document `body`, as the `serde_json` and `serde_json_path` crates give
/// it (a string's contents, else the node's JSON text); none when the body
/// or the path does not parse, or nothing is selected.
pub uninterp spec fn jsonpath_value(body: Seq<char>, path: Seq<char>) -> Option<Seq<char>>;

/// The first node that `path` selects in `body` (`serde_json::from_str`,
/// `JsonPath::parse`, `JsonPath::query`, `NodeList::first`), as text. The
/// contract names the result.
#[verifier::external_body]
fn jsonpath_first(body: &str, path: &str) -> (r: Option<String>)
    ensures
        jsonpath_value(body@, path@) == match r {
            Some(s) => Some(s@),
            None => None,
        },
{
    let json = serde_json::from_str::<serde_json::Value>(body).ok()?;
    let path = serde_json_path::JsonPath::parse(path).ok()?;
    let node = path.query(&json).first()?;
    Some(match node {
        serde_json::Value::String(s) => s.clone(),
        serde_json::Value::Number(n) => n.to_string(),
        serde_json::Value::Bool(b) => b.to_string(),
        other => other.to_string(),
    })
}

/// The text of the value of XPath `xpath` on the XML document `body`, as
/// the `sxd-document` and `sxd-xpath` crates give it (the string value of
/// the first node in document order, or the boolean, number or string);
/// none when the body or the expression does not parse, the evaluation
/// fails, or no node is selected.
pub uninterp spec fn xpath_value(body: Seq<char>, xpath: Seq<char>) -> Option<Seq<char>>;

/// The value of `xpath` on `body` (`sxd_document::parser::parse`,
/// `Factory::build`, `XPath::evaluate`), as text. The contract names the
/// result.
#[verifier::external_body]
fn xpath_first(body: &str, xpath: &str) -> (r: Option<String>)
    ensures
        xpath_value(body@, xpath@) == match r {
            Some(s) => Some(s@),
            None => None,
        },
{
    let package = sxd_document::parser::parse(body).ok()?;
    let document = package.as_document();
    let path = sxd_xpath::Factory::new().build(xpath).ok()??;
    let value = path.evaluate(&sxd_xpath::Context::new(), document.root()).ok()?;
    Some(match value {
        sxd_xpath::Value::Nodeset(ns) => ns.document_order().first()?.string_value(),
        sxd_xpath::Value::Boolean(b) => b.to_string(),
        sxd_xpath::Value::Number(n) => n.to_string(),
        sxd_xpath::Value::String(s) => s,
    })
}

/// Which kind of expression the rules are.
#[derive(Debug, Clone, Copy, PartialEq, Eq, Structural)]
pub enum RuleKind {
    Regex,
    JsonPath,
    XPath,
}

/// What a rule of a kind extracts from `body`.
pub open spec fn rule_value(kind: RuleKind, body: Seq<char>) -> spec_fn(Seq<char>) -> Option<Seq<char>> {
    match kind {
        RuleKind::Regex => regex_value(body),
        RuleKind::JsonPath => |p: Seq<char>| jsonpath_value(body, p),
        RuleKind::XPath => |p: Seq<char>| xpath_value(body, p),
    }
}

/// Applies the rules of a kind to `body`, in the rules' order.
fn apply_rules(kind: RuleKind, body: &str, rules: &StrMap<String>, session: &mut UserSession)
    ensures
        value_texts(final(session).variables@) == extracted(
            value_texts(old(session).variables@),
            rules.keys(),
            rules@,
            rule_value(kind, body@),
            rules.len_spec() as int,
        ),
{
    let n = rules.len();
    let mut i: usize = 0;
    while i < n
        invariant
            n == rules.len_spec(),
            rules.keys().len() == n,
            i <= n,
            value_texts(session.variables@) == extracted(
                value_texts(old(session).variables@),
                rules.keys(),
                rules@,
                rule_value(kind, body@),
                i as int,
            ),
        decreases n - i,
    {
        let name = rules.key_at(i);
        let expr = rules.value_at(i);
        let value: Option<String> = match kind {
            RuleKind::Regex => match regex_first(expr.as_str(), body) {
                Some(Some((whole, group))) => match group {
                    Some(g) => Some(g),
                    None => Some(whole),
                },
                _ => None,
            },
            RuleKind::JsonPath => jsonpath_first(body, expr.as_str()),
            RuleKind::XPath => xpath_first(body, expr.as_str()),
        };
        let ghost before = session.variables@;
        match value {
            Some(v) => {
                let ghost vv = v@;
                let _ = session.variables.insert(name.clone(), v);
                assert(value_texts(session.variables@) =~= value_texts(before).insert(name@, vv));
            },
            None => {},
        }
        i = i + 1;
    }
}

/// Extracts session variables from responses.
pub struct ExtractionEngine;

impl ExtractionEngine {
    /// Sets each variable whose JSONPath selects a node in the JSON `body`
    /// to the node's text (a string's contents, else its JSON text).
    pub fn extract_jsonpath(body: &str, rules: &StrMap<String>, session: &mut UserSession)
        ensures
            value_texts(final(session).variables@) == extracted(
                value_texts(old(session).variables@),
                rules.keys(),
                rules@,
                rule_value(RuleKind::JsonPath, body@),
                rules.len_spec() as int,
            ),
    {
        apply_rules(RuleKind::JsonPath, body, rules, session)
    }

    /// Sets each variable whose regular expression matches `body` to the
    /// first group of the first match, or the whole match when the group
    /// did not take part.
    pub fn extract_regex(body: &str, rules: &StrMap<String>, session: &mut UserSession)
        ensures
            value_texts(final(session).variables@) == extracted(
                value_texts(old(session).variables@),
                rules.keys(),
                rules@,
                rule_value(RuleKind::Regex, body@),
                rules.len_spec() as int,
            ),
    {
        apply_rules(RuleKind::Regex, body, rules, session)
    }

    /// Sets each variable whose XPath gives a value on the XML `body` to
    /// that value's text.
    pub fn extract_xpath(body: &str, rules: &StrMap<String>, session: &mut UserSession)
        ensures
            value_texts(final(session).variables@) == extracted(
                value_texts(old(session).variables@),
                rules.keys(),
                rules@,
                rule_value(RuleKind::XPath, body@),
                rules.len_spec() as int,
            ),
    {
        apply_rules(RuleKind::XPath, body, rules, session)
    }
}

} // verus!
