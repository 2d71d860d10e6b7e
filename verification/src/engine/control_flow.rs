//! Response assertions and control-flow conditions.

use crate::engine::patterns::{regex_is_match, regex_match};
use crate::engine::BztError;
use crate::models::config::AssertionDefinition;
use crate::strmap::StrMap;
use crate::text::{
    chars_less, chars_of, contains, decimal, decimal_chars, find_first, find_in, lemma_find_first,
    seq_less, str_eq, string_of, sub_string, trim, trim_bounds, trim_char, trim_char_bounds,
    trim_end, trim_start,
};
use vstd::prelude::*;
use vstd::string::StringExecFns;

verus! {

// ---------------------------------------------------------------------------
// Assertions
// ---------------------------------------------------------------------------

/// The position of the first pattern, from `i` on, whose presence equals
/// `not` (the first pattern the assertion fails on).
pub open spec fn first_mismatch(
    pats: Seq<String>,
    found: spec_fn(Seq<char>) -> bool,
    not: bool,
    i: int,
) -> Option<int>
    decreases pats.len() - i,
{
    if i < 0 || i >= pats.len() {
        None
    } else if found(pats[i]@) == not {
        Some(i)
    } else {
        first_mismatch(pats, found, not, i + 1)
    }
}

/// Whether a body assertion finds pattern `p` in `body`: as a regular
/// expression when `regexp` is set (a pattern that does not compile finds
/// nothing), else as a substring.
pub open spec fn pattern_found(regexp: bool, body: Seq<char>, p: Seq<char>) -> bool {
    if regexp {
        regex_match(p, body) == Some(true)
    } else {
        contains(body, p)
    }
}

/// The text `not` when `not` is set, else nothing.
pub open spec fn not_word(not: bool) -> Seq<char> {
    if not {
        "not"@
    } else {
        Seq::empty()
    }
}

/// The error a failed status assertion on pattern `p` gives.
pub open spec fn status_failure(e: BztError, not: bool, p: Seq<char>) -> bool {
    e matches BztError::Validation { field, reason } && field@ == "http-code"@ && reason@
        == "expected status to "@ + not_word(not) + " be "@ + p
}

/// The error a failed body assertion on pattern `p` gives.
pub open spec fn body_failure(e: BztError, subject: Seq<char>, not: bool, p: Seq<char>) -> bool {
    e matches BztError::Validation { field, reason } && field@ == subject && reason@
        == "expected to "@ + not_word(not) + " contain '"@ + p + "'"@
}

/// The outcome of a status assertion: the status, as a decimal numeral, must
/// equal each pattern (or, with `not`, differ from each); the first pattern
/// that breaks this is reported.
pub open spec fn status_outcome(r: Result<(), BztError>, status: u16, a: AssertionDefinition) -> bool {
    let found = |p: Seq<char>| decimal(status as nat) == p;
    match first_mismatch(a.contains@, found, a.not, 0) {
        None => r is Ok,
        Some(i) => r matches Err(e) && status_failure(e, a.not, a.contains@[i]@),
    }
}

/// The outcome of an assertion on a response with `body` and `status`.
pub open spec fn assertion_outcome(
    r: Result<(), BztError>,
    body: Seq<char>,
    status: u16,
    a: AssertionDefinition,
) -> bool {
    if a.subject@ == "http-code"@ {
        status_outcome(r, status, a)
    } else {
        let found = |p: Seq<char>| pattern_found(a.regexp, body, p);
        match first_mismatch(a.contains@, found, a.not, 0) {
            None => r is Ok,
            Some(i) => r matches Err(e) && body_failure(e, a.subject@, a.not, a.contains@[i]@),
        }
    }
}

fn not_word_exec(not: bool) -> (s: &'static str)
    ensures
        s@ == not_word(not),
{
    if not {
        "not"
    } else {
        proof {
            reveal_strlit("");
        }
        ""
    }
}

fn check_status(status: u16, assertion: &AssertionDefinition) -> (r: Result<(), BztError>)
    ensures
        status_outcome(r, status, *assertion),
{
    let status_str = string_of(&decimal_chars(status as u64));
    let ghost found = |p: Seq<char>| decimal(status as nat) == p;
    let mut i: usize = 0;
    while i < assertion.contains.len()
        invariant
            i <= assertion.contains@.len(),
            status_str@ == decimal(status as nat),
            found == (|p: Seq<char>| decimal(status as nat) == p),
            first_mismatch(assertion.contains@, found, assertion.not, 0) == first_mismatch(
                assertion.contains@,
                found,
                assertion.not,
                i as int,
            ),
        decreases assertion.contains@.len() - i,
    {
        let pattern = &assertion.contains[i];
        let is_found = str_eq(status_str.as_str(), pattern.as_str());
        if is_found == assertion.not {
            let mut reason = String::from_str("expected status to ");
            reason.append(not_word_exec(assertion.not));
            reason.append(" be ");
            reason.append(pattern.as_str());
            return Err(BztError::Validation { field: String::from_str("http-code"), reason });
        }
        i = i + 1;
    }
    Ok(())
}

/// Checks responses against assertion definitions.
pub struct AssertionEngine;

impl AssertionEngine {
    /// Checks one assertion on a response: an `http-code` subject compares
    /// the status with each pattern; any other subject searches the body for
    /// each pattern (as a regular expression when `regexp` is set). With
    /// `not`, each pattern must be absent instead. The first pattern that
    /// breaks the assertion is reported.
    pub fn check_assertion(body: &str, status: u16, assertion: &AssertionDefinition) -> (r: Result<
        (),
        BztError,
    >)
        ensures
            assertion_outcome(r, body@, status, *assertion),
    {
        if str_eq(assertion.subject.as_str(), "http-code") {
            return check_status(status, assertion);
        }
        let body_chars = chars_of(body);
        let ghost found = |p: Seq<char>| pattern_found(assertion.regexp, body@, p);
        let mut i: usize = 0;
        while i < assertion.contains.len()
            invariant
                i <= assertion.contains@.len(),
                assertion.subject@ != "http-code"@,
                body_chars@ == body@,
                found == (|p: Seq<char>| pattern_found(assertion.regexp, body@, p)),
                first_mismatch(assertion.contains@, found, assertion.not, 0) == first_mismatch(
                    assertion.contains@,
                    found,
                    assertion.not,
                    i as int,
                ),
            decreases assertion.contains@.len() - i,
        {
            let pattern = &assertion.contains[i];
            let is_found = if assertion.regexp {
                match regex_is_match(pattern.as_str(), body) {
                    Some(m) => m,
                    None => false,
                }
            } else {
                let p = chars_of(pattern.as_str());
                let pos = find_in(&body_chars, 0, body_chars.len(), &p);
                proof {
                    assert(body_chars@.subrange(0, body_chars@.len() as int) =~= body@);
                    lemma_find_first(body@, pattern@);
                }
                pos.is_some()
            };
            assert(is_found == found(pattern@));
            if is_found == assertion.not {
                let mut reason = String::from_str("expected to ");
                reason.append(not_word_exec(assertion.not));
                reason.append(" contain '");
                reason.append(pattern.as_str());
                reason.append("'");
                return Err(BztError::Validation { field: assertion.subject.clone(), reason });
            }
            i = i + 1;
        }
        Ok(())
    }
}

// ---------------------------------------------------------------------------
// Conditions
// ---------------------------------------------------------------------------

/// A comparison operator of a condition.
#[derive(Debug, Clone, Copy, PartialEq, Eq, Structural)]
pub enum RelOp {
    Eq,
    Ne,
    Ge,
    Le,
    Gt,
    Lt,
}

/// How two numbers compare; `Unordered` when either is not a number (NaN).
#[derive(Debug, Clone, Copy, PartialEq, Eq, Structural)]
pub enum FloatOrder {
    Less,
    Equal,
    Greater,
    Unordered,
}

/// The text of an operator.
pub open spec fn op_text(op: RelOp) -> Seq<char> {
    match op {
        RelOp::Eq => seq!['=', '='],
        RelOp::Ne => seq!['!', '='],
        RelOp::Ge => seq!['>', '='],
        RelOp::Le => seq!['<', '='],
        RelOp::Gt => seq!['>'],
        RelOp::Lt => seq!['<'],
    }
}

/// The comparison split at the first occurrence of `op`, if `op` occurs:
/// the trimmed text before it, the operator, the trimmed text after it.
pub open spec fn split_at_op(c: Seq<char>, op: RelOp) -> Option<(Seq<char>, RelOp, Seq<char>)> {
    match find_first(c, op_text(op)) {
        Some(i) => Some((trim(c.take(i)), op, trim(c.skip(i + op_text(op).len())))),
        None => None,
    }
}

/// A condition read as a comparison: the operators are tried in the order
/// `==`, `!=`, `>=`, `<=`, `>`, `<`, and the first one that occurs anywhere
/// splits the condition at its first occurrence.
pub open spec fn parse_comparison(c: Seq<char>) -> Option<(Seq<char>, RelOp, Seq<char>)> {
    if split_at_op(c, RelOp::Eq) is Some {
        split_at_op(c, RelOp::Eq)
    } else if split_at_op(c, RelOp::Ne) is Some {
        split_at_op(c, RelOp::Ne)
    } else if split_at_op(c, RelOp::Ge) is Some {
        split_at_op(c, RelOp::Ge)
    } else if split_at_op(c, RelOp::Le) is Some {
        split_at_op(c, RelOp::Le)
    } else if split_at_op(c, RelOp::Gt) is Some {
        split_at_op(c, RelOp::Gt)
    } else {
        split_at_op(c, RelOp::Lt)
    }
}

/// The value of an operand: the variable's value when the operand names a
/// variable, else the operand itself.
pub open spec fn operand_value(vars: Map<Seq<char>, String>, l: Seq<char>) -> Seq<char> {
    if vars.contains_key(l) {
        vars[l]@
    } else {
        l
    }
}

/// Whether a numeric ordering satisfies an ordering operator.
pub open spec fn order_satisfies(o: FloatOrder, op: RelOp) -> bool {
    match op {
        RelOp::Gt => o is Greater,
        RelOp::Lt => o is Less,
        RelOp::Ge => o is Greater || o is Equal,
        RelOp::Le => o is Less || o is Equal,
        _ => false,
    }
}

/// Whether the lexicographic order of two texts satisfies an ordering
/// operator.
pub open spec fn text_order_satisfies(l: Seq<char>, r: Seq<char>, op: RelOp) -> bool {
    match op {
        RelOp::Gt => seq_less(r, l),
        RelOp::Lt => seq_less(l, r),
        RelOp::Ge => !seq_less(l, r),
        RelOp::Le => !seq_less(r, l),
        _ => false,
    }
}

/// Whether a comparison holds between two operand values: `==` and `!=`
/// compare the texts; the ordering operators compare the values as numbers
/// when `num` reads both as numbers, else the texts lexicographically.
pub open spec fn comparison_holds(
    l: Seq<char>,
    op: RelOp,
    r: Seq<char>,
    num: spec_fn(Seq<char>, Seq<char>) -> Option<FloatOrder>,
) -> bool {
    match op {
        RelOp::Eq => l == r,
        RelOp::Ne => l != r,
        _ => match num(l, r) {
            Some(o) => order_satisfies(o, op),
            None => text_order_satisfies(l, r, op),
        },
    }
}

/// Trimming never lengthens a text.
pub proof fn lemma_trim_len(s: Seq<char>)
    ensures
        trim(s).len() <= s.len(),
{
    lemma_trim_start_len(s);
    lemma_trim_end_len(trim_start(s));
}

proof fn lemma_trim_start_len(s: Seq<char>)
    ensures
        trim_start(s).len() <= s.len(),
    decreases s.len(),
{
    if s.len() > 0 {
        lemma_trim_start_len(s.drop_first());
    }
}

proof fn lemma_trim_end_len(s: Seq<char>)
    ensures
        trim_end(s).len() <= s.len(),
    decreases s.len(),
{
    if s.len() > 0 {
        lemma_trim_end_len(s.drop_last());
    }
}

/// Whether condition `c` holds with variables `vars`, numbers being compared
/// by `num`. An empty condition holds; a condition with `||` holds when one
/// of its `||`-separated parts does; else one with `&&` when all of its
/// `&&`-separated parts do; else a comparison as [`comparison_holds`] says,
/// the right operand stripped of surrounding `"`; else a bare name holds
/// when it names a variable with a non-empty value.
pub open spec fn condition_holds(
    c: Seq<char>,
    vars: Map<Seq<char>, String>,
    num: spec_fn(Seq<char>, Seq<char>) -> Option<FloatOrder>,
) -> bool
    decreases c.len(), 1int,
{
    let t = trim(c);
    proof {
        lemma_trim_len(c);
    }
    if t.len() == 0 {
        true
    } else if contains(t, seq!['|', '|']) {
        any_part_holds(t, vars, num)
    } else if contains(t, seq!['&', '&']) {
        all_parts_hold(t, vars, num)
    } else {
        match parse_comparison(t) {
            Some((l, op, r)) => comparison_holds(operand_value(vars, l), op, trim_char(r, '"'), num),
            None => vars.contains_key(t) && vars[t]@.len() > 0,
        }
    }
}

/// One of the `||`-separated parts of `t` holds.
pub open spec fn any_part_holds(
    t: Seq<char>,
    vars: Map<Seq<char>, String>,
    num: spec_fn(Seq<char>, Seq<char>) -> Option<FloatOrder>,
) -> bool
    decreases t.len(), 0int,
{
    proof {
        lemma_find_first(t, seq!['|', '|']);
    }
    match find_first(t, seq!['|', '|']) {
        Some(i) => {
            let rest = t.skip(i + 2);
            condition_holds(t.take(i), vars, num) || if contains(rest, seq!['|', '|']) {
                any_part_holds(rest, vars, num)
            } else {
                condition_holds(rest, vars, num)
            }
        },
        None => false,
    }
}

/// All of the `&&`-separated parts of `t` hold.
pub open spec fn all_parts_hold(
    t: Seq<char>,
    vars: Map<Seq<char>, String>,
    num: spec_fn(Seq<char>, Seq<char>) -> Option<FloatOrder>,
) -> bool
    decreases t.len(), 0int,
{
    proof {
        lemma_find_first(t, seq!['&', '&']);
    }
    match find_first(t, seq!['&', '&']) {
        Some(i) => {
            let rest = t.skip(i + 2);
            condition_holds(t.take(i), vars, num) && if contains(rest, seq!['&', '&']) {
                all_parts_hold(rest, vars, num)
            } else {
                condition_holds(rest, vars, num)
            }
        },
        None => true,
    }
}

/// The pieces of `s` between the non-overlapping occurrences of `sep`,
/// found from the left (`str::split` with a text separator, collected).
pub open spec fn split_text(s: Seq<char>, sep: Seq<char>) -> Seq<Seq<char>>
    decreases s.len(),
{
    proof {
        lemma_find_first(s, sep);
    }
    if sep.len() == 0 {
        seq![s]
    } else {
        match find_first(s, sep) {
            Some(i) => seq![s.take(i)] + split_text(s.skip(i + sep.len()), sep),
            None => seq![s],
        }
    }
}

/// The `||`-separated parts of `t`.
pub open spec fn or_parts(t: Seq<char>) -> Seq<Seq<char>> {
    split_text(t, seq!['|', '|'])
}

/// The `&&`-separated parts of `t`.
pub open spec fn and_parts(t: Seq<char>) -> Seq<Seq<char>> {
    split_text(t, seq!['&', '&'])
}

proof fn lemma_any_part_split(
    t: Seq<char>,
    vars: Map<Seq<char>, String>,
    num: spec_fn(Seq<char>, Seq<char>) -> Option<FloatOrder>,
)
    requires
        contains(t, seq!['|', '|']),
    ensures
        any_part_holds(t, vars, num) == exists|k: int|
            0 <= k < or_parts(t).len() && condition_holds(#[trigger] or_parts(t)[k], vars, num),
    decreases t.len(),
{
    let sep = seq!['|', '|'];
    lemma_find_first(t, sep);
    let i = find_first(t, sep)->0;
    let rest = t.skip(i + 2);
    let parts = or_parts(t);
    let tail = or_parts(rest);
    assert(parts =~= seq![t.take(i)] + tail);
    lemma_find_first(rest, sep);
    let tail_any = exists|k: int| 0 <= k < tail.len() && condition_holds(#[trigger] tail[k], vars, num);
    if contains(rest, sep) {
        lemma_any_part_split(rest, vars, num);
    } else {
        assert(tail =~= seq![rest]);
        if condition_holds(rest, vars, num) {
            assert(condition_holds(tail[0], vars, num));
        }
    }
    assert(any_part_holds(t, vars, num) == (condition_holds(t.take(i), vars, num) || tail_any));
    let all_any = exists|k: int| 0 <= k < parts.len() && condition_holds(#[trigger] parts[k], vars, num);
    if condition_holds(t.take(i), vars, num) {
        assert(condition_holds(parts[0], vars, num));
    }
    if tail_any {
        let k = choose|k: int| 0 <= k < tail.len() && condition_holds(#[trigger] tail[k], vars, num);
        assert(parts[k + 1] == tail[k]);
        assert(condition_holds(parts[k + 1], vars, num));
    }
    if all_any {
        let k = choose|k: int| 0 <= k < parts.len() && condition_holds(#[trigger] parts[k], vars, num);
        if k > 0 {
            assert(tail[k - 1] == parts[k]);
            assert(condition_holds(tail[k - 1], vars, num));
        }
    }
}

proof fn lemma_all_parts_split(
    t: Seq<char>,
    vars: Map<Seq<char>, String>,
    num: spec_fn(Seq<char>, Seq<char>) -> Option<FloatOrder>,
)
    requires
        contains(t, seq!['&', '&']),
    ensures
        all_parts_hold(t, vars, num) == forall|k: int|
            0 <= k < and_parts(t).len() ==> condition_holds(#[trigger] and_parts(t)[k], vars, num),
    decreases t.len(),
{
    let sep = seq!['&', '&'];
    lemma_find_first(t, sep);
    let i = find_first(t, sep)->0;
    let rest = t.skip(i + 2);
    let parts = and_parts(t);
    let tail = and_parts(rest);
    assert(parts =~= seq![t.take(i)] + tail);
    lemma_find_first(rest, sep);
    let tail_all = forall|k: int| 0 <= k < tail.len() ==> condition_holds(#[trigger] tail[k], vars, num);
    if contains(rest, sep) {
        lemma_all_parts_split(rest, vars, num);
    } else {
        assert(tail =~= seq![rest]);
        if !condition_holds(rest, vars, num) {
            assert(!condition_holds(tail[0], vars, num));
        }
    }
    assert(all_parts_hold(t, vars, num) == (condition_holds(t.take(i), vars, num) && tail_all));
    let every = forall|k: int| 0 <= k < parts.len() ==> condition_holds(#[trigger] parts[k], vars, num);
    if condition_holds(t.take(i), vars, num) && tail_all {
        assert forall|k: int| 0 <= k < parts.len() implies condition_holds(#[trigger] parts[k], vars, num) by {
            if k == 0 {
                assert(parts[0] == t.take(i));
            } else {
                assert(parts[k] == tail[k - 1]);
                assert(condition_holds(tail[k - 1], vars, num));
            }
        }
    }
    if every {
        assert(parts[0] == t.take(i));
        assert(condition_holds(parts[0], vars, num));
        assert forall|k: int| 0 <= k < tail.len() implies condition_holds(#[trigger] tail[k], vars, num) by {
            assert(parts[k + 1] == tail[k]);
            assert(condition_holds(parts[k + 1], vars, num));
        }
    }
}

/// How a condition splits, once trimmed (as
/// [`ControlFlowEngine::evaluate_condition`] states of its result): an
/// empty one holds; one with `||`
/// holds when any of its `||`-separated parts does; else one with `&&`
/// when all of its `&&`-separated parts do (so `||` binds looser than
/// `&&`); else a bare name, with no comparison in it, holds when it names
/// a variable with a non-empty value.
pub proof fn lemma_condition_split(
    c: Seq<char>,
    vars: Map<Seq<char>, String>,
    num: spec_fn(Seq<char>, Seq<char>) -> Option<FloatOrder>,
)
    ensures
        trim(c).len() == 0 ==> condition_holds(c, vars, num),
        trim(c).len() > 0 && contains(trim(c), seq!['|', '|']) ==> (condition_holds(c, vars, num)
            == exists|k: int|
            0 <= k < or_parts(trim(c)).len() && condition_holds(
                #[trigger] or_parts(trim(c))[k],
                vars,
                num,
            )),
        trim(c).len() > 0 && !contains(trim(c), seq!['|', '|']) && contains(trim(c), seq!['&', '&'])
            ==> (condition_holds(c, vars, num) == forall|k: int|
            0 <= k < and_parts(trim(c)).len() ==> condition_holds(
                #[trigger] and_parts(trim(c))[k],
                vars,
                num,
            )),
        trim(c).len() > 0 && !contains(trim(c), seq!['|', '|']) && !contains(trim(c), seq!['&', '&'])
            && parse_comparison(trim(c)) is None ==> (condition_holds(c, vars, num) == (vars.contains_key(
            trim(c),
        ) && vars[trim(c)]@.len() > 0)),
{
    let t = trim(c);
    if t.len() > 0 && contains(t, seq!['|', '|']) {
        lemma_any_part_split(t, vars, num);
    }
    if t.len() > 0 && !contains(t, seq!['|', '|']) && contains(t, seq!['&', '&']) {
        lemma_all_parts_split(t, vars, num);
    }
}

/// Ordering comparisons between numbers: when a condition (trimmed, with no
/// `||` or `&&`) is a `<`, `<=`, `>` or `>=` comparison and both operand
/// values read as numbers, it holds exactly as the numbers compare. In
/// particular equal numbers satisfy `<=` and `>=` but not `<` or `>`, and
/// `<=` holds exactly when `<` or equality does.
pub proof fn lemma_numeric_ordering(
    c: Seq<char>,
    vars: Map<Seq<char>, String>,
    num: spec_fn(Seq<char>, Seq<char>) -> Option<FloatOrder>,
    o: FloatOrder,
)
    requires
        trim(c).len() > 0,
        !contains(trim(c), seq!['|', '|']),
        !contains(trim(c), seq!['&', '&']),
        parse_comparison(trim(c)) matches Some((l, op, r)) && num(operand_value(vars, l), trim_char(r, '"'))
            == Some(o),
    ensures
        match parse_comparison(trim(c)) {
            Some((_, op, _)) => {
                &&& op is Lt ==> (condition_holds(c, vars, num) <==> o == FloatOrder::Less)
                &&& op is Le ==> (condition_holds(c, vars, num) <==> (o == FloatOrder::Less || o
                    == FloatOrder::Equal))
                &&& op is Gt ==> (condition_holds(c, vars, num) <==> o == FloatOrder::Greater)
                &&& op is Ge ==> (condition_holds(c, vars, num) <==> (o == FloatOrder::Greater || o
                    == FloatOrder::Equal))
                &&& o == FloatOrder::Equal && (op is Le || op is Ge) ==> condition_holds(c, vars, num)
                &&& o == FloatOrder::Unordered && (op is Lt || op is Le || op is Gt || op is Ge)
                    ==> !condition_holds(c, vars, num)
            },
            None => false,
        },
{
}

/// Equality comparisons and the text fallback: when a condition (trimmed,
/// with no `||` or `&&`) is a comparison, `==` holds exactly when the left
/// operand's value (a variable's value, else the operand) is the right
/// operand without its surrounding quotes, `!=` exactly when it is not; and
/// an ordering comparison on operands that do not both read as numbers
/// follows the lexicographic order of the texts (`<=` and `>=` holding on
/// equal texts).
pub proof fn lemma_text_comparisons(
    c: Seq<char>,
    vars: Map<Seq<char>, String>,
    num: spec_fn(Seq<char>, Seq<char>) -> Option<FloatOrder>,
)
    requires
        trim(c).len() > 0,
        !contains(trim(c), seq!['|', '|']),
        !contains(trim(c), seq!['&', '&']),
        parse_comparison(trim(c)) is Some,
    ensures
        match parse_comparison(trim(c)) {
            Some((l, op, r)) => {
                let a = operand_value(vars, l);
                let b = trim_char(r, '"');
                &&& op is Eq ==> (condition_holds(c, vars, num) <==> a == b)
                &&& op is Ne ==> (condition_holds(c, vars, num) <==> a != b)
                &&& num(a, b) is None && op is Lt ==> (condition_holds(c, vars, num) <==> seq_less(a, b))
                &&& num(a, b) is None && op is Gt ==> (condition_holds(c, vars, num) <==> seq_less(b, a))
                &&& num(a, b) is None && op is Le ==> (condition_holds(c, vars, num) <==> !seq_less(b, a))
                &&& num(a, b) is None && op is Ge ==> (condition_holds(c, vars, num) <==> !seq_less(a, b))
            },
            None => false,
        },
{
}

/// The numeric ordering that comparator `f` gives for two texts.
pub open spec fn comparator_order<F: Fn(&str, &str) -> Option<FloatOrder>>(
    f: F,
    a: Seq<char>,
    b: Seq<char>,
) -> Option<FloatOrder> {
    (choose|x: &str, y: &str, o: Option<FloatOrder>|
        #![trigger f.ensures((x, y), o)]
        x@ == a && y@ == b && f.ensures((x, y), o)).2
}

/// A comparator that can be called on any two texts and whose result
/// depends on the texts alone.
pub open spec fn comparator_well_behaved<F: Fn(&str, &str) -> Option<FloatOrder>>(f: F) -> bool {
    &&& forall|x: &str, y: &str| #[trigger] f.requires((x, y))
    &&& forall|x1: &str, y1: &str, x2: &str, y2: &str, o1: Option<FloatOrder>, o2: Option<FloatOrder>|
        #![trigger f.ensures((x1, y1), o1), f.ensures((x2, y2), o2)]
        x1@ == x2@ && y1@ == y2@ && f.ensures((x1, y1), o1) && f.ensures((x2, y2), o2) ==> o1
            == o2
}

/// The bounds of a comparison found in `v[lo..hi]`.
struct ComparisonBounds {
    left: (usize, usize),
    op: RelOp,
    right: (usize, usize),
}

fn op_chars(op: RelOp) -> (v: Vec<char>)
    ensures
        v@ == op_text(op),
{
    let v = match op {
        RelOp::Eq => vec!['=', '='],
        RelOp::Ne => vec!['!', '='],
        RelOp::Ge => vec!['>', '='],
        RelOp::Le => vec!['<', '='],
        RelOp::Gt => vec!['>'],
        RelOp::Lt => vec!['<'],
    };
    assert(v@ =~= op_text(op));
    v
}

fn split_at_op_in(v: &Vec<char>, lo: usize, hi: usize, op: RelOp) -> (r: Option<ComparisonBounds>)
    requires
        lo <= hi <= v.len(),
    ensures
        match r {
            Some(b) => {
                &&& lo <= b.left.0 <= b.left.1 <= hi
                &&& lo <= b.right.0 <= b.right.1 <= hi
                &&& split_at_op(v@.subrange(lo as int, hi as int), op) == Some(
                    (
                        v@.subrange(b.left.0 as int, b.left.1 as int),
                        b.op,
                        v@.subrange(b.right.0 as int, b.right.1 as int),
                    ),
                )
            },
            None => split_at_op(v@.subrange(lo as int, hi as int), op) is None,
        },
{
    let p = op_chars(op);
    match find_in(v, lo, hi, &p) {
        Some(i) => {
            let left = trim_bounds(v, lo, lo + i);
            let right = trim_bounds(v, lo + i + p.len(), hi);
            let ghost c = v@.subrange(lo as int, hi as int);
            assert(c.take(i as int) =~= v@.subrange(lo as int, lo + i));
            assert(c.skip(i + p@.len()) =~= v@.subrange(lo + i + p@.len(), hi as int));
            Some(ComparisonBounds { left, op, right })
        },
        None => None,
    }
}

fn parse_comparison_in(v: &Vec<char>, lo: usize, hi: usize) -> (r: Option<ComparisonBounds>)
    requires
        lo <= hi <= v.len(),
    ensures
        match r {
            Some(b) => {
                &&& lo <= b.left.0 <= b.left.1 <= hi
                &&& lo <= b.right.0 <= b.right.1 <= hi
                &&& parse_comparison(v@.subrange(lo as int, hi as int)) == Some(
                    (
                        v@.subrange(b.left.0 as int, b.left.1 as int),
                        b.op,
                        v@.subrange(b.right.0 as int, b.right.1 as int),
                    ),
                )
            },
            None => parse_comparison(v@.subrange(lo as int, hi as int)) is None,
        },
{
    let r = split_at_op_in(v, lo, hi, RelOp::Eq);
    if r.is_some() {
        return r;
    }
    let r = split_at_op_in(v, lo, hi, RelOp::Ne);
    if r.is_some() {
        return r;
    }
    let r = split_at_op_in(v, lo, hi, RelOp::Ge);
    if r.is_some() {
        return r;
    }
    let r = split_at_op_in(v, lo, hi, RelOp::Le);
    if r.is_some() {
        return r;
    }
    let r = split_at_op_in(v, lo, hi, RelOp::Gt);
    if r.is_some() {
        return r;
    }
    split_at_op_in(v, lo, hi, RelOp::Lt)
}

/// Evaluates conditions of `if` and `loop` requests.
pub struct ControlFlowEngine;

impl ControlFlowEngine {
    /// Evaluates a condition string against a set of variables. Supports
    /// comparisons (`==`, `!=`, `>`, `<`, `>=`, `<=`), the logical operators
    /// `&&` and `||`, and truthiness of a single variable. Ordering
    /// comparisons ask `numeric` how the two operand values compare as
    /// numbers (`None` when either is not a number) and fall back to the
    /// lexicographic order of the texts.
    pub fn evaluate_condition<F: Fn(&str, &str) -> Option<FloatOrder>>(
        cond: &str,
        variables: &StrMap<String>,
        numeric: &F,
    ) -> (r: bool)
        requires
            comparator_well_behaved(*numeric),
        ensures
            r == condition_holds(
                cond@,
                variables@,
                |a: Seq<char>, b: Seq<char>| comparator_order(*numeric, a, b),
            ),
            trim(cond@).len() == 0 ==> r,
            trim(cond@).len() > 0 && contains(trim(cond@), seq!['|', '|']) ==> (r == exists|k: int|
                0 <= k < or_parts(trim(cond@)).len() && condition_holds(
                    #[trigger] or_parts(trim(cond@))[k],
                    variables@,
                    |a: Seq<char>, b: Seq<char>| comparator_order(*numeric, a, b),
                )),
            trim(cond@).len() > 0 && !contains(trim(cond@), seq!['|', '|']) && contains(
                trim(cond@),
                seq!['&', '&'],
            ) ==> (r == forall|k: int|
                0 <= k < and_parts(trim(cond@)).len() ==> condition_holds(
                    #[trigger] and_parts(trim(cond@))[k],
                    variables@,
                    |a: Seq<char>, b: Seq<char>| comparator_order(*numeric, a, b),
                )),
            trim(cond@).len() > 0 && !contains(trim(cond@), seq!['|', '|']) && !contains(
                trim(cond@),
                seq!['&', '&'],
            ) && parse_comparison(trim(cond@)) is None ==> (r == (variables@.contains_key(trim(cond@))
                && variables@[trim(cond@)]@.len() > 0)),
    {
        let v = chars_of(cond);
        assert(v@.subrange(0, v@.len() as int) =~= v@);
        let r = Self::eval_in(&v, 0, v.len(), variables, numeric);
        proof {
            lemma_condition_split(
                cond@,
                variables@,
                |a: Seq<char>, b: Seq<char>| comparator_order(*numeric, a, b),
            );
        }
        r
    }

    fn eval_in<F: Fn(&str, &str) -> Option<FloatOrder>>(
        v: &Vec<char>,
        lo: usize,
        hi: usize,
        variables: &StrMap<String>,
        numeric: &F,
    ) -> (r: bool)
        requires
            lo <= hi <= v.len(),
            comparator_well_behaved(*numeric),
        ensures
            r == condition_holds(
                v@.subrange(lo as int, hi as int),
                variables@,
                |a: Seq<char>, b: Seq<char>| comparator_order(*numeric, a, b),
            ),
        decreases hi - lo, 1int,
    {
        let ghost num = |a: Seq<char>, b: Seq<char>| comparator_order(*numeric, a, b);
        let ghost c = v@.subrange(lo as int, hi as int);
        let (a, b) = trim_bounds(v, lo, hi);
        let ghost t = v@.subrange(a as int, b as int);
        assert(t == trim(c));
        if a == b {
            return true;
        }
        let or = vec!['|', '|'];
        let and = vec!['&', '&'];
        assert(or@ =~= seq!['|', '|']);
        assert(and@ =~= seq!['&', '&']);
        let has_or = find_in(v, a, b, &or);
        proof {
            lemma_find_first(t, or@);
        }
        if has_or.is_some() {
            return Self::any_in(v, a, b, variables, numeric);
        }
        let has_and = find_in(v, a, b, &and);
        proof {
            lemma_find_first(t, and@);
        }
        if has_and.is_some() {
            return Self::all_in(v, a, b, variables, numeric);
        }
        match parse_comparison_in(v, a, b) {
            Some(cb) => {
                let left = sub_string(v, cb.left.0, cb.left.1);
                let (r0, r1) = trim_char_bounds(v, cb.right.0, cb.right.1, '"');
                let right = sub_string(v, r0, r1);
                let left_val: &str = match variables.get(left.as_str()) {
                    Some(val) => val.as_str(),
                    None => left.as_str(),
                };
                match cb.op {
                    RelOp::Eq => str_eq(left_val, right.as_str()),
                    RelOp::Ne => !str_eq(left_val, right.as_str()),
                    _ => {
                        let right_val: &str = right.as_str();
                        let o = numeric(left_val, right_val);
                        proof {
                            assert(comparator_order(*numeric, left_val@, right@) == o) by {
                                assert(numeric.ensures((left_val, right_val), o));
                                let (x, y, w) = choose|x: &str, y: &str, w: Option<FloatOrder>|
                                    #![trigger numeric.ensures((x, y), w)]
                                    x@ == left_val@ && y@ == right@ && numeric.ensures((x, y), w);
                                assert(numeric.ensures((x, y), w));
                            }
                        }
                        match o {
                            Some(ord) => match cb.op {
                                RelOp::Gt => ord == FloatOrder::Greater,
                                RelOp::Lt => ord == FloatOrder::Less,
                                RelOp::Ge => ord == FloatOrder::Greater || ord == FloatOrder::Equal,
                                _ => ord == FloatOrder::Less || ord == FloatOrder::Equal,
                            },
                            None => {
                                let lv = chars_of(left_val);
                                let rv = chars_of(right.as_str());
                                let text_order = chars_less(&lv, &rv);
                                match cb.op {
                                    RelOp::Gt => text_order == Some(false),
                                    RelOp::Lt => text_order == Some(true),
                                    RelOp::Ge => text_order != Some(true),
                                    _ => text_order != Some(false),
                                }
                            },
                        }
                    },
                }
            },
            None => {
                let key = sub_string(v, a, b);
                match variables.get(key.as_str()) {
                    Some(val) => !val.as_str().is_empty(),
                    None => false,
                }
            },
        }
    }

    fn any_in<F: Fn(&str, &str) -> Option<FloatOrder>>(
        v: &Vec<char>,
        lo: usize,
        hi: usize,
        variables: &StrMap<String>,
        numeric: &F,
    ) -> (r: bool)
        requires
            lo <= hi <= v.len(),
            comparator_well_behaved(*numeric),
        ensures
            r == any_part_holds(
                v@.subrange(lo as int, hi as int),
                variables@,
                |a: Seq<char>, b: Seq<char>| comparator_order(*numeric, a, b),
            ),
        decreases hi - lo, 0int,
    {
        let ghost t = v@.subrange(lo as int, hi as int);
        let or = vec!['|', '|'];
        assert(or@ =~= seq!['|', '|']);
        proof {
            lemma_find_first(t, or@);
        }
        match find_in(v, lo, hi, &or) {
            Some(i) => {
                assert(t.take(i as int) =~= v@.subrange(lo as int, lo + i));
                assert(t.skip(i + 2) =~= v@.subrange(lo + i + 2, hi as int));
                if Self::eval_in(v, lo, lo + i, variables, numeric) {
                    return true;
                }
                let rest_has_or = find_in(v, lo + i + 2, hi, &or);
                proof {
                    lemma_find_first(t.skip(i + 2), or@);
                }
                if rest_has_or.is_some() {
                    Self::any_in(v, lo + i + 2, hi, variables, numeric)
                } else {
                    Self::eval_in(v, lo + i + 2, hi, variables, numeric)
                }
            },
            None => false,
        }
    }

    fn all_in<F: Fn(&str, &str) -> Option<FloatOrder>>(
        v: &Vec<char>,
        lo: usize,
        hi: usize,
        variables: &StrMap<String>,
        numeric: &F,
    ) -> (r: bool)
        requires
            lo <= hi <= v.len(),
            comparator_well_behaved(*numeric),
        ensures
            r == all_parts_hold(
                v@.subrange(lo as int, hi as int),
                variables@,
                |a: Seq<char>, b: Seq<char>| comparator_order(*numeric, a, b),
            ),
        decreases hi - lo, 0int,
    {
        let ghost t = v@.subrange(lo as int, hi as int);
        let and = vec!['&', '&'];
        assert(and@ =~= seq!['&', '&']);
        proof {
            lemma_find_first(t, and@);
        }
        match find_in(v, lo, hi, &and) {
            Some(i) => {
                assert(t.take(i as int) =~= v@.subrange(lo as int, lo + i));
                assert(t.skip(i + 2) =~= v@.subrange(lo + i + 2, hi as int));
                if !Self::eval_in(v, lo, lo + i, variables, numeric) {
                    return false;
                }
                let rest_has_and = find_in(v, lo + i + 2, hi, &and);
                proof {
                    lemma_find_first(t.skip(i + 2), and@);
                }
                if rest_has_and.is_some() {
                    Self::all_in(v, lo + i + 2, hi, variables, numeric)
                } else {
                    Self::eval_in(v, lo + i + 2, hi, variables, numeric)
                }
            },
            None => true,
        }
    }
}

} // verus!
