//! Character-level text operations with their specifications.
//!
//! Strings are handled as sequences of `char` (the view of `String` and
//! `&str`). The executable helpers here work on `Vec<char>` copies and are
//! proved against the spec functions next to them.

use vstd::prelude::*;
use vstd::std_specs::iter::IteratorSpec;

verus! {

// ---------------------------------------------------------------------------
// Conversions between strings and character vectors
// ---------------------------------------------------------------------------

/// Collects the characters of `s` into a vector, in order.
pub(crate) fn chars_of(s: &str) -> (v: Vec<char>)
    ensures
        v@ == s@,
{
    let mut it = s.chars();
    let mut v: Vec<char> = Vec::new();
    loop
        invariant
            v@ + it.remaining() == s@,
            it.decrease() is Some,
        ensures
            v@ == s@,
        decreases it.decrease()->0,
    {
        let ghost before = it.remaining();
        match it.next() {
            Some(c) => {
                assert(v@.push(c) + it.remaining() =~= v@ + before);
                v.push(c);
            },
            None => {
                assert(v@ =~= s@);
                break;
            },
        }
    }
    v
}

/// Builds a `String` from a vector of characters (std's `FromIterator<&char>`
/// for `String`); the string holds exactly those characters, in order.
#[verifier::external_body]
pub(crate) fn string_of(v: &Vec<char>) -> (s: String)
    ensures
        s@ == v@,
{
    v.iter().collect()
}

/// Character-wise equality of two string slices.
pub(crate) fn str_eq(a: &str, b: &str) -> (r: bool)
    ensures
        r == (a@ == b@),
{
    String::from_str(a) == String::from_str(b)
}

// ---------------------------------------------------------------------------
// Whitespace and trimming
// ---------------------------------------------------------------------------

/// Unicode `White_Space`, the set that `char::is_whitespace` tests.
pub open spec fn is_whitespace(c: char) -> bool {
    ||| ('\u{9}' <= c && c <= '\u{d}')
    ||| c == ' '
    ||| c == '\u{85}'
    ||| c == '\u{a0}'
    ||| c == '\u{1680}'
    ||| ('\u{2000}' <= c && c <= '\u{200a}')
    ||| c == '\u{2028}'
    ||| c == '\u{2029}'
    ||| c == '\u{202f}'
    ||| c == '\u{205f}'
    ||| c == '\u{3000}'
}

/// Executable form of [`is_whitespace`].
pub fn char_is_whitespace(c: char) -> (r: bool)
    ensures
        r == is_whitespace(c),
{
    ('\u{9}' <= c && c <= '\u{d}') || c == ' ' || c == '\u{85}' || c == '\u{a0}' || c
        == '\u{1680}' || ('\u{2000}' <= c && c <= '\u{200a}') || c == '\u{2028}' || c
        == '\u{2029}' || c == '\u{202f}' || c == '\u{205f}' || c == '\u{3000}'
}

/// `s` without its leading whitespace.
pub open spec fn trim_start(s: Seq<char>) -> Seq<char>
    decreases s.len(),
{
    if s.len() > 0 && is_whitespace(s[0]) {
        trim_start(s.drop_first())
    } else {
        s
    }
}

/// `s` without its trailing whitespace.
pub open spec fn trim_end(s: Seq<char>) -> Seq<char>
    decreases s.len(),
{
    if s.len() > 0 && is_whitespace(s.last()) {
        trim_end(s.drop_last())
    } else {
        s
    }
}

/// `s` without leading and trailing whitespace (`str::trim`).
pub open spec fn trim(s: Seq<char>) -> Seq<char> {
    trim_end(trim_start(s))
}

/// Bounds `[lo, hi)` of the trimmed part of `v[from..to]`.
pub fn trim_bounds(v: &Vec<char>, from: usize, to: usize) -> (r: (usize, usize))
    requires
        from <= to <= v.len(),
    ensures
        from <= r.0 <= r.1 <= to,
        v@.subrange(r.0 as int, r.1 as int) == trim(v@.subrange(from as int, to as int)),
{
    let mut lo = from;
    while lo < to && char_is_whitespace(v[lo])
        invariant
            from <= lo <= to <= v.len(),
            trim_start(v@.subrange(from as int, to as int)) == trim_start(
                v@.subrange(lo as int, to as int),
            ),
        decreases to - lo,
    {
        assert(v@.subrange(lo as int, to as int).drop_first() =~= v@.subrange(
            lo + 1,
            to as int,
        ));
        lo = lo + 1;
    }
    assert(trim_start(v@.subrange(lo as int, to as int)) == v@.subrange(lo as int, to as int));
    let mut hi = to;
    while hi > lo && char_is_whitespace(v[hi - 1])
        invariant
            from <= lo <= hi <= to <= v.len(),
            trim_end(v@.subrange(lo as int, to as int)) == trim_end(
                v@.subrange(lo as int, hi as int),
            ),
        decreases hi - lo,
    {
        assert(v@.subrange(lo as int, hi as int).drop_last() =~= v@.subrange(
            lo as int,
            hi - 1,
        ));
        hi = hi - 1;
    }
    (lo, hi)
}

// ---------------------------------------------------------------------------
// Prefixes, suffixes and searching
// ---------------------------------------------------------------------------

/// `s` starts with `p`.
pub open spec fn starts_with(s: Seq<char>, p: Seq<char>) -> bool {
    p.len() <= s.len() && s.subrange(0, p.len() as int) == p
}

/// `s` ends with `p`.
pub open spec fn ends_with(s: Seq<char>, p: Seq<char>) -> bool {
    p.len() <= s.len() && s.subrange(s.len() - p.len(), s.len() as int) == p
}

/// `s` with every trailing repetition of `p` removed (`str::trim_end_matches`).
pub open spec fn trim_end_matches(s: Seq<char>, p: Seq<char>) -> Seq<char>
    decreases s.len(),
{
    if p.len() > 0 && ends_with(s, p) {
        trim_end_matches(s.subrange(0, s.len() - p.len()), p)
    } else {
        s
    }
}

/// `p` occurs in `s` starting at `i`.
pub open spec fn occurs_at(s: Seq<char>, p: Seq<char>, i: int) -> bool {
    0 <= i && i + p.len() <= s.len() && s.subrange(i, i + p.len()) == p
}

/// `s` contains `p` (`str::contains`).
pub open spec fn contains(s: Seq<char>, p: Seq<char>) -> bool {
    exists|i: int| occurs_at(s, p, i)
}

/// Executable test of [`occurs_at`] on `v[from..to]`.
pub fn occurs_at_in(v: &Vec<char>, from: usize, to: usize, p: &Vec<char>, i: usize) -> (r: bool)
    requires
        from <= to <= v.len(),
    ensures
        r == occurs_at(v@.subrange(from as int, to as int), p@, i - from),
        i < from ==> !r,
{
    if i < from || i > to || p.len() > to - i {
        return false;
    }
    let mut k: usize = 0;
    while k < p.len()
        invariant
            from <= i <= to <= v.len(),
            i + p.len() <= to,
            k <= p.len(),
            forall|j: int| 0 <= j < k ==> v@[i + j] == p@[j],
        decreases p.len() - k,
    {
        if v[i + k] != p[k] {
            assert(v@.subrange(from as int, to as int).subrange(
                i - from,
                i - from + p.len(),
            )[k as int] != p@[k as int]);
            return false;
        }
        k = k + 1;
    }
    assert(v@.subrange(from as int, to as int).subrange(i - from, i - from + p.len()) =~= p@);
    true
}

/// `true` when `v[from..to]` starts with `p`.
pub fn starts_with_in(v: &Vec<char>, from: usize, to: usize, p: &Vec<char>) -> (r: bool)
    requires
        from <= to <= v.len(),
    ensures
        r == starts_with(v@.subrange(from as int, to as int), p@),
{
    let r = occurs_at_in(v, from, to, p, from);
    assert(r == starts_with(v@.subrange(from as int, to as int), p@)) by {
        if p@.len() <= to - from {
            assert(v@.subrange(from as int, to as int).subrange(0, p@.len() as int)
                =~= v@.subrange(from as int, to as int).subrange(0, 0 + p@.len() as int));
        }
    }
    r
}

/// `true` when `v[from..to]` ends with `p`.
pub fn ends_with_in(v: &Vec<char>, from: usize, to: usize, p: &Vec<char>) -> (r: bool)
    requires
        from <= to <= v.len(),
    ensures
        r == ends_with(v@.subrange(from as int, to as int), p@),
{
    if p.len() > to - from {
        return false;
    }
    let r = occurs_at_in(v, from, to, p, to - p.len());
    assert(v@.subrange(from as int, to as int).subrange(to - p.len() - from, to - from)
        =~= v@.subrange(from as int, to as int).subrange(
        v@.subrange(from as int, to as int).len() - p@.len(),
        v@.subrange(from as int, to as int).len() as int,
    ));
    r
}

/// End of `v[from..to]` once every trailing repetition of `p` is removed.
pub fn trim_end_matches_bound(v: &Vec<char>, from: usize, to: usize, p: &Vec<char>) -> (r: usize)
    requires
        from <= to <= v.len(),
    ensures
        from <= r <= to,
        v@.subrange(from as int, r as int) == trim_end_matches(
            v@.subrange(from as int, to as int),
            p@,
        ),
{
    if p.len() == 0 {
        return to;
    }
    let mut hi = to;
    while ends_with_in(v, from, hi, p)
        invariant
            from <= hi <= to <= v.len(),
            p.len() > 0,
            trim_end_matches(v@.subrange(from as int, to as int), p@) == trim_end_matches(
                v@.subrange(from as int, hi as int),
                p@,
            ),
        decreases hi - from,
    {
        assert(v@.subrange(from as int, hi as int).subrange(
            0,
            (hi - from) - p.len(),
        ) =~= v@.subrange(from as int, hi - p.len()));
        hi = hi - p.len();
    }
    hi
}

/// The first position at which `p` occurs in `s` (`str::find`, counted in
/// characters).
pub open spec fn find_first(s: Seq<char>, p: Seq<char>) -> Option<int>
    decreases s.len(),
{
    if p.len() > s.len() {
        None
    } else if s.subrange(0, p.len() as int) == p {
        Some(0)
    } else if s.len() == 0 {
        None
    } else {
        match find_first(s.drop_first(), p) {
            Some(i) => Some(i + 1),
            None => None,
        }
    }
}

/// [`find_first`] gives the least position where `p` occurs, and `None`
/// exactly when `p` does not occur.
pub proof fn lemma_find_first(s: Seq<char>, p: Seq<char>)
    ensures
        match find_first(s, p) {
            Some(i) => occurs_at(s, p, i) && forall|j: int| 0 <= j < i ==> !occurs_at(s, p, j),
            None => !contains(s, p),
        },
    decreases s.len(),
{
    if p.len() > s.len() {
        assert forall|j: int| !occurs_at(s, p, j) by {}
    } else if s.subrange(0, p.len() as int) == p {
        assert(occurs_at(s, p, 0));
    } else if s.len() == 0 {
        assert(p.len() == 0);
        assert(s.subrange(0, 0) =~= p);
    } else {
        let t = s.drop_first();
        lemma_find_first(t, p);
        assert(!occurs_at(s, p, 0));
        assert forall|j: int| 0 <= j && occurs_at(s, p, j + 1) implies occurs_at(t, p, j) by {
            assert(s.subrange(j + 1, j + 1 + p.len()) =~= t.subrange(j, j + p.len()));
        }
        assert forall|j: int| 0 <= j && occurs_at(t, p, j) implies occurs_at(s, p, j + 1) by {
            assert(s.subrange(j + 1, j + 1 + p.len()) =~= t.subrange(j, j + p.len()));
        }
        match find_first(t, p) {
            Some(i) => {
                assert(occurs_at(s, p, i + 1));
                assert forall|j: int| 0 <= j < i + 1 implies !occurs_at(s, p, j) by {
                    if j > 0 {
                        assert(!occurs_at(t, p, j - 1));
                    }
                }
            },
            None => {
                assert forall|j: int| !occurs_at(s, p, j) by {
                    if j > 0 && occurs_at(s, p, j) {
                        assert(occurs_at(t, p, j - 1));
                    }
                }
            },
        }
    }
}

/// The first position, relative to `from`, at which `p` occurs in
/// `v[from..to]`.
pub fn find_in(v: &Vec<char>, from: usize, to: usize, p: &Vec<char>) -> (r: Option<usize>)
    requires
        from <= to <= v.len(),
    ensures
        match r {
            Some(i) => find_first(v@.subrange(from as int, to as int), p@) == Some(i as int) && i + p@.len() <= to - from,
            None => find_first(v@.subrange(from as int, to as int), p@) is None,
        },
{
    let ghost s = v@.subrange(from as int, to as int);
    proof {
        lemma_find_first(s, p@);
    }
    if p.len() > to - from {
        return None;
    }
    if p.len() == 0 {
        assert(s.subrange(0, 0) =~= p@);
        return Some(0);
    }
    let mut i = from;
    while p.len() <= to - i
        invariant
            from <= i <= to <= v.len(),
            0 < p@.len() <= to - from,
            s == v@.subrange(from as int, to as int),
            forall|j: int| 0 <= j < i - from ==> !occurs_at(s, p@, j),
        decreases to - i,
    {
        if occurs_at_in(v, from, to, p, i) {
            proof {
                lemma_find_first(s, p@);
                match find_first(s, p@) {
                    Some(k) => {
                        if k < i - from {
                        } else if k > i - from {
                            assert(!occurs_at(s, p@, i - from));
                        }
                    },
                    None => {},
                }
            }
            return Some(i - from);
        }
        i = i + 1;
    }
    proof {
        lemma_find_first(s, p@);
        match find_first(s, p@) {
            Some(k) => {
                assert(k < i - from);
            },
            None => {},
        }
    }
    None
}

/// Whether `p` occurs in `s` (`str::contains` with a string pattern).
pub fn contains_str(s: &str, p: &str) -> (b: bool)
    ensures
        b == contains(s@, p@),
{
    let v = chars_of(s);
    let w = chars_of(p);
    proof {
        assert(v@.subrange(0, v@.len() as int) =~= v@);
        lemma_find_first(v@, w@);
    }
    find_in(&v, 0, v.len(), &w).is_some()
}

/// `s` with leading and trailing repetitions of character `c` removed
/// (`str::trim_matches` with a character).
pub open spec fn trim_char(s: Seq<char>, c: char) -> Seq<char>
    decreases s.len(),
{
    if s.len() > 0 && s[0] == c {
        trim_char(s.drop_first(), c)
    } else if s.len() > 0 && s.last() == c {
        trim_char(s.drop_last(), c)
    } else {
        s
    }
}

/// Bounds `[lo, hi)` of `v[from..to]` with `c` trimmed from both ends.
pub fn trim_char_bounds(v: &Vec<char>, from: usize, to: usize, c: char) -> (r: (usize, usize))
    requires
        from <= to <= v.len(),
    ensures
        from <= r.0 <= r.1 <= to,
        v@.subrange(r.0 as int, r.1 as int) == trim_char(v@.subrange(from as int, to as int), c),
{
    let mut lo = from;
    let mut hi = to;
    while lo < hi && (v[lo] == c || v[hi - 1] == c)
        invariant
            from <= lo <= hi <= to <= v.len(),
            trim_char(v@.subrange(from as int, to as int), c) == trim_char(
                v@.subrange(lo as int, hi as int),
                c,
            ),
        decreases hi - lo,
    {
        if v[lo] == c {
            assert(v@.subrange(lo as int, hi as int).drop_first() =~= v@.subrange(
                lo + 1,
                hi as int,
            ));
            lo = lo + 1;
        } else {
            assert(v@.subrange(lo as int, hi as int).drop_last() =~= v@.subrange(
                lo as int,
                hi - 1,
            ));
            hi = hi - 1;
        }
    }
    (lo, hi)
}

/// `a` comes before `b` in lexicographic order of characters (the order of
/// `str`, whose UTF-8 bytes order as their code points do).
pub open spec fn seq_less(a: Seq<char>, b: Seq<char>) -> bool
    decreases a.len(),
{
    if b.len() == 0 {
        false
    } else if a.len() == 0 {
        true
    } else if a[0] != b[0] {
        a[0] < b[0]
    } else {
        seq_less(a.drop_first(), b.drop_first())
    }
}

/// The lexicographic order is strict: no text is below itself, and of two
/// texts at most one is below the other.
pub proof fn lemma_seq_less_asymmetric(a: Seq<char>, b: Seq<char>)
    ensures
        !(seq_less(a, b) && seq_less(b, a)),
        !seq_less(a, a),
    decreases a.len(),
{
    if a.len() > 0 && b.len() > 0 && a[0] == b[0] {
        lemma_seq_less_asymmetric(a.drop_first(), b.drop_first());
    }
    if a.len() > 0 {
        lemma_seq_less_asymmetric(a.drop_first(), a.drop_first());
    }
}

/// Lexicographic comparison of two character vectors: `Some(true)` when
/// `a < b`, `Some(false)` when `b < a`, `None` when equal.
pub fn chars_less(a: &Vec<char>, b: &Vec<char>) -> (r: Option<bool>)
    ensures
        match r {
            Some(true) => seq_less(a@, b@),
            Some(false) => seq_less(b@, a@),
            None => a@ == b@,
        },
        (r == Some(true)) == seq_less(a@, b@),
        (r == Some(false)) == seq_less(b@, a@),
{
    proof {
        lemma_seq_less_asymmetric(a@, b@);
    }
    let mut i: usize = 0;
    assert(a@.skip(0) =~= a@);
    assert(b@.skip(0) =~= b@);
    while i < a.len() && i < b.len()
        invariant
            i <= a.len(),
            i <= b.len(),
            a@.subrange(0, i as int) == b@.subrange(0, i as int),
            seq_less(a@, b@) == seq_less(a@.skip(i as int), b@.skip(i as int)),
            seq_less(b@, a@) == seq_less(b@.skip(i as int), a@.skip(i as int)),
        decreases a.len() - i,
    {
        if a[i] != b[i] {
            return Some(a[i] < b[i]);
        }
        assert(a@.skip(i as int).drop_first() =~= a@.skip(i + 1));
        assert(b@.skip(i as int).drop_first() =~= b@.skip(i + 1));
        assert(a@.subrange(0, i + 1) =~= a@.subrange(0, i as int).push(a@[i as int]));
        assert(b@.subrange(0, i + 1) =~= b@.subrange(0, i as int).push(b@[i as int]));
        i = i + 1;
    }
    if a.len() == b.len() {
        assert(a@ =~= a@.subrange(0, i as int));
        assert(b@ =~= b@.subrange(0, i as int));
        None
    } else {
        Some(a.len() < b.len())
    }
}

/// `s` with every non-overlapping occurrence of `from`, scanning left to
/// right, replaced by `to` (`str::replace` with a non-empty pattern).
pub open spec fn replace_all(s: Seq<char>, from: Seq<char>, to: Seq<char>) -> Seq<char>
    recommends
        from.len() > 0,
    decreases s.len(),
{
    if s.len() == 0 || from.len() == 0 {
        s
    } else if starts_with(s, from) {
        to + replace_all(s.skip(from.len() as int), from, to)
    } else {
        seq![s[0]] + replace_all(s.drop_first(), from, to)
    }
}

/// Replaces every non-overlapping occurrence of `from` in `s` by `to`.
pub fn replace_all_chars(s: &Vec<char>, from: &Vec<char>, to: &Vec<char>) -> (r: Vec<char>)
    requires
        from@.len() > 0,
    ensures
        r@ == replace_all(s@, from@, to@),
{
    let mut out: Vec<char> = Vec::new();
    let mut i: usize = 0;
    assert(s@.skip(0) =~= s@);
    assert(out@ + replace_all(s@, from@, to@) =~= replace_all(s@, from@, to@));
    while i < s.len()
        invariant
            i <= s.len(),
            from@.len() > 0,
            out@ + replace_all(s@.skip(i as int), from@, to@) == replace_all(s@, from@, to@),
        decreases s.len() - i,
    {
        let ghost rest = s@.skip(i as int);
        if starts_with_in(s, i, s.len(), from) {
            assert(s@.subrange(i as int, s@.len() as int) =~= rest);
            let mut k: usize = 0;
            let ghost before = out@;
            while k < to.len()
                invariant
                    k <= to.len(),
                    out@ == before + to@.subrange(0, k as int),
                decreases to.len() - k,
            {
                out.push(to[k]);
                k = k + 1;
                assert(out@ =~= before + to@.subrange(0, k as int));
            }
            assert(to@.subrange(0, to@.len() as int) =~= to@);
            assert(rest.skip(from@.len() as int) =~= s@.skip(i + from@.len()));
            assert(out@ + replace_all(s@.skip(i + from@.len()), from@, to@) =~= before + (to@
                + replace_all(rest.skip(from@.len() as int), from@, to@)));
            i = i + from.len();
        } else {
            assert(s@.subrange(i as int, s@.len() as int) =~= rest);
            let ghost before = out@;
            out.push(s[i]);
            assert(rest.drop_first() =~= s@.skip(i + 1));
            assert(out@ + replace_all(s@.skip(i + 1), from@, to@) =~= before + (seq![rest[0]]
                + replace_all(rest.drop_first(), from@, to@)));
            i = i + 1;
        }
    }
    assert(s@.skip(i as int) =~= Seq::<char>::empty());
    assert(out@ + Seq::<char>::empty() =~= out@);
    out
}

// ---------------------------------------------------------------------------
// Unsigned integers: parsing and decimal rendering
// ---------------------------------------------------------------------------

/// An ASCII decimal digit.
pub open spec fn is_digit(c: char) -> bool {
    '0' <= c && c <= '9'
}

/// The value of a decimal digit.
pub open spec fn digit_value(c: char) -> nat {
    (c as int - '0' as int) as nat
}

/// Every character of `s` is a decimal digit.
pub open spec fn all_digits(s: Seq<char>) -> bool {
    forall|i: int| 0 <= i < s.len() ==> is_digit(#[trigger] s[i])
}

/// The number written by the digits of `s` (most significant first).
pub open spec fn digits_value(s: Seq<char>) -> nat
    decreases s.len(),
{
    if s.len() == 0 {
        0
    } else {
        digits_value(s.drop_last()) * 10 + digit_value(s.last())
    }
}

/// `s` without one optional leading `+`.
pub open spec fn unsigned_body(s: Seq<char>) -> Seq<char> {
    if s.len() > 0 && s[0] == '+' {
        s.drop_first()
    } else {
        s
    }
}

/// What `str::parse::<u64>` gives on `s`: an optional `+`, then one or more
/// decimal digits whose value fits in a `u64`; `None` otherwise.
pub open spec fn parse_u64(s: Seq<char>) -> Option<u64> {
    let b = unsigned_body(s);
    if b.len() > 0 && all_digits(b) && digits_value(b) <= u64::MAX {
        Some(digits_value(b) as u64)
    } else {
        None
    }
}

/// A digit prefix is worth no more than the whole digit string.
pub proof fn lemma_digits_prefix_le(s: Seq<char>, k: int)
    requires
        all_digits(s),
        0 <= k <= s.len(),
    ensures
        digits_value(s.subrange(0, k)) <= digits_value(s),
    decreases s.len(),
{
    if k < s.len() {
        assert(s.drop_last().subrange(0, k) =~= s.subrange(0, k));
        assert(all_digits(s.drop_last())) by {
            assert forall|i: int| 0 <= i < s.drop_last().len() implies is_digit(
                #[trigger] s.drop_last()[i],
            ) by {
                assert(s.drop_last()[i] == s[i]);
            }
        }
        lemma_digits_prefix_le(s.drop_last(), k);
    } else {
        assert(s.subrange(0, k) =~= s);
    }
}

/// Parses `v[from..to]` as `str::parse::<u64>` does.
pub fn parse_u64_in(v: &Vec<char>, from: usize, to: usize) -> (r: Option<u64>)
    requires
        from <= to <= v.len(),
    ensures
        r == parse_u64(v@.subrange(from as int, to as int)),
{
    let ghost s = v@.subrange(from as int, to as int);
    let mut i = from;
    if i < to && v[i] == '+' {
        i = i + 1;
        assert(s.drop_first() =~= v@.subrange(i as int, to as int));
    } else {
        assert(s =~= v@.subrange(i as int, to as int));
    }
    if i == to {
        return None;
    }
    let start = i;
    let ghost body = v@.subrange(start as int, to as int);
    assert(unsigned_body(s) == body);
    let mut acc: u64 = 0;
    assert(v@.subrange(start as int, start as int) =~= Seq::<char>::empty());
    while i < to
        invariant
            from <= start <= i <= to <= v.len(),
            start < to,
            s == v@.subrange(from as int, to as int),
            body == v@.subrange(start as int, to as int),
            unsigned_body(s) == body,
            all_digits(v@.subrange(start as int, i as int)),
            acc == digits_value(v@.subrange(start as int, i as int)),
        decreases to - i,
    {
        let c = v[i];
        if !('0' <= c && c <= '9') {
            assert(body[i - start] == c);
            assert(!is_digit(body[i - start]));
            return None;
        }
        let d: u64 = (c as u32 - '0' as u32) as u64;
        let ghost next = v@.subrange(start as int, i + 1);
        assert(next.drop_last() =~= v@.subrange(start as int, i as int));
        assert(all_digits(next)) by {
            assert forall|j: int| 0 <= j < next.len() implies is_digit(#[trigger] next[j]) by {
                if j < next.len() - 1 {
                    assert(next[j] == v@.subrange(start as int, i as int)[j]);
                }
            }
        }
        if acc > (u64::MAX - d) / 10 {
            assert(acc * 10 + d > u64::MAX) by (nonlinear_arith)
                requires
                    acc > (u64::MAX - d) / 10,
                    d <= 9,
            ;
            assert(digits_value(next) == acc * 10 + d);
            proof {
                if all_digits(body) {
                    assert(body.subrange(0, i + 1 - start) =~= next);
                    lemma_digits_prefix_le(body, i + 1 - start);
                }
            }
            return None;
        }
        assert(acc * 10 + d <= u64::MAX) by (nonlinear_arith)
            requires
                acc <= (u64::MAX - d) / 10,
                d <= 9,
        ;
        acc = acc * 10 + d;
        i = i + 1;
    }
    assert(v@.subrange(start as int, i as int) =~= body);
    Some(acc)
}

/// What `str::parse::<usize>` gives on `s`.
pub open spec fn parse_usize(s: Seq<char>) -> Option<usize> {
    match parse_u64(s) {
        Some(n) => if n <= usize::MAX {
            Some(n as usize)
        } else {
            None
        },
        None => None,
    }
}

/// Parses `v[from..to]` as `str::parse::<usize>` does.
pub fn parse_usize_in(v: &Vec<char>, from: usize, to: usize) -> (r: Option<usize>)
    requires
        from <= to <= v.len(),
    ensures
        r == parse_usize(v@.subrange(from as int, to as int)),
{
    match parse_u64_in(v, from, to) {
        Some(n) => if n <= usize::MAX as u64 {
            Some(n as usize)
        } else {
            None
        },
        None => None,
    }
}

/// What `str::parse::<i64>` gives on `s`: an optional sign, then one or
/// more decimal digits whose signed value fits in an `i64`; `None`
/// otherwise.
pub open spec fn parse_i64(s: Seq<char>) -> Option<i64> {
    if s.len() > 0 && s[0] == '-' {
        let b = s.drop_first();
        if b.len() > 0 && all_digits(b) && digits_value(b) <= 0x8000_0000_0000_0000 {
            Some((0 - digits_value(b)) as i64)
        } else {
            None
        }
    } else {
        match parse_u64(s) {
            Some(n) => if n <= i64::MAX {
                Some(n as i64)
            } else {
                None
            },
            None => None,
        }
    }
}

/// Parses `v[from..to]` as `str::parse::<i64>` does.
pub fn parse_i64_in(v: &Vec<char>, from: usize, to: usize) -> (r: Option<i64>)
    requires
        from <= to <= v.len(),
    ensures
        r == parse_i64(v@.subrange(from as int, to as int)),
{
    let ghost s = v@.subrange(from as int, to as int);
    if from < to && v[from] == '-' {
        let ghost b = s.drop_first();
        assert(b =~= v@.subrange(from + 1, to as int));
        if from + 1 < to && v[from + 1] == '+' {
            assert(b[0] == '+');
            assert(!is_digit(b[0]));
            return None;
        }
        assert(unsigned_body(b) == b);
        match parse_u64_in(v, from + 1, to) {
            Some(n) => {
                if n <= 0x8000_0000_0000_0000u64 {
                    let m: i128 = 0i128 - (n as i128);
                    Some(m as i64)
                } else {
                    None
                }
            },
            None => None,
        }
    } else {
        match parse_u64_in(v, from, to) {
            Some(n) => if n <= i64::MAX as u64 {
                Some(n as i64)
            } else {
                None
            },
            None => None,
        }
    }
}

/// The position of the first `c` in `s`.
pub open spec fn char_pos(s: Seq<char>, c: char) -> Option<int>
    decreases s.len(),
{
    if s.len() == 0 {
        None
    } else if s[0] == c {
        Some(0)
    } else {
        match char_pos(s.drop_first(), c) {
            Some(i) => Some(i + 1),
            None => None,
        }
    }
}

/// [`char_pos`] finds the first `c`, and `None` exactly when there is none.
pub proof fn lemma_char_pos(s: Seq<char>, c: char)
    ensures
        match char_pos(s, c) {
            Some(i) => 0 <= i < s.len() && s[i] == c && forall|j: int| 0 <= j < i ==> s[j] != c,
            None => forall|j: int| 0 <= j < s.len() ==> s[j] != c,
        },
    decreases s.len(),
{
    if s.len() > 0 && s[0] != c {
        lemma_char_pos(s.drop_first(), c);
        assert forall|j: int| 0 < j < s.len() implies s[j] == s.drop_first()[j - 1] by {}
    }
}

/// The pieces of `s` between the occurrences of `c` (`str::split` with a
/// character): one more piece than there are occurrences.
pub open spec fn split_on(s: Seq<char>, c: char) -> Seq<Seq<char>>
    decreases s.len(),
{
    proof {
        lemma_char_pos(s, c);
    }
    match char_pos(s, c) {
        Some(i) => seq![s.take(i)] + split_on(s.skip(i + 1), c),
        None => seq![s],
    }
}

/// The texts of a sequence of strings.
pub open spec fn string_views(v: Seq<String>) -> Seq<Seq<char>> {
    v.map_values(|x: String| x@)
}

/// Splits `s` at every `c` (`str::split` with a character, collected).
pub fn split_char(s: &str, c: char) -> (r: Vec<String>)
    ensures
        string_views(r@) == split_on(s@, c),
{
    let v = chars_of(s);
    let mut out: Vec<String> = Vec::new();
    let mut start: usize = 0;
    let mut i: usize = 0;
    assert(v@.skip(0) =~= v@);
    assert(string_views(out@) =~= Seq::<Seq<char>>::empty());
    while i < v.len()
        invariant
            start <= i <= v@.len(),
            string_views(out@) + split_on(v@.skip(start as int), c) == split_on(v@, c),
            forall|k: int| start <= k < i ==> v@[k] != c,
        decreases v@.len() - i,
    {
        if v[i] == c {
            let ghost t = v@.skip(start as int);
            proof {
                lemma_char_pos(t, c);
                match char_pos(t, c) {
                    Some(k) => {
                        if k < i - start {
                            assert(t[k] == v@[start + k]);
                        } else if k > i - start {
                            assert(t[i - start] == v@[i as int]);
                        }
                    },
                    None => {
                        assert(t[i - start] == v@[i as int]);
                    },
                }
                assert(t.take(i - start) =~= v@.subrange(start as int, i as int));
                assert(t.skip(i - start + 1) =~= v@.skip(i + 1));
            }
            let piece = sub_string(&v, start, i);
            let ghost before = out@;
            out.push(piece);
            assert(string_views(out@) =~= string_views(before).push(piece@));
            assert(string_views(out@) + split_on(v@.skip(i + 1), c) =~= string_views(before)
                + split_on(t, c));
            start = i + 1;
        }
        i = i + 1;
    }
    let ghost t = v@.skip(start as int);
    proof {
        lemma_char_pos(t, c);
        match char_pos(t, c) {
            Some(k) => {
                assert(t[k] == v@[start + k]);
            },
            None => {},
        }
        assert(t =~= v@.subrange(start as int, v@.len() as int));
    }
    let piece = sub_string(&v, start, v.len());
    let ghost before = out@;
    out.push(piece);
    assert(string_views(out@) =~= string_views(before).push(piece@));
    assert(string_views(out@) =~= string_views(before) + split_on(t, c));
    out
}

/// The character of decimal digit `d`.
pub open spec fn digit_char(d: nat) -> char {
    ('0' as int + d) as char
}

/// The decimal numeral of `n`, without leading zeros (`n.to_string()`).
pub open spec fn decimal(n: nat) -> Seq<char>
    decreases n,
{
    if n < 10 {
        seq![digit_char(n)]
    } else {
        decimal(n / 10).push(digit_char(n % 10))
    }
}

fn digit_to_char(d: u64) -> (c: char)
    requires
        d < 10,
    ensures
        c == digit_char(d as nat),
{
    if d == 0 {
        '0'
    } else if d == 1 {
        '1'
    } else if d == 2 {
        '2'
    } else if d == 3 {
        '3'
    } else if d == 4 {
        '4'
    } else if d == 5 {
        '5'
    } else if d == 6 {
        '6'
    } else if d == 7 {
        '7'
    } else if d == 8 {
        '8'
    } else {
        '9'
    }
}

/// A copy of the characters `v[from..to]`.
pub fn sub_chars(v: &Vec<char>, from: usize, to: usize) -> (r: Vec<char>)
    requires
        from <= to <= v.len(),
    ensures
        r@ == v@.subrange(from as int, to as int),
{
    let mut r = Vec::new();
    let mut i = from;
    while i < to
        invariant
            from <= i <= to <= v.len(),
            r@ == v@.subrange(from as int, i as int),
        decreases to - i,
    {
        r.push(v[i]);
        i = i + 1;
        assert(r@ =~= v@.subrange(from as int, i as int));
    }
    r
}

/// The string made of the characters `v[from..to]`.
pub fn sub_string(v: &Vec<char>, from: usize, to: usize) -> (r: String)
    requires
        from <= to <= v.len(),
    ensures
        r@ == v@.subrange(from as int, to as int),
{
    let c = sub_chars(v, from, to);
    string_of(&c)
}

/// The decimal numeral of `n` as characters.
pub fn decimal_chars(n: u64) -> (s: Vec<char>)
    ensures
        s@ == decimal(n as nat),
    decreases n,
{
    if n < 10 {
        let mut s = Vec::new();
        s.push(digit_to_char(n));
        assert(s@ =~= seq![digit_char(n as nat)]);
        s
    } else {
        let mut s = decimal_chars(n / 10);
        s.push(digit_to_char(n % 10));
        s
    }
}

/// The decimal numeral of `n` (`n.to_string()`).
pub fn decimal_string(n: u64) -> (s: String)
    ensures
        s@ == decimal(n as nat),
{
    let v = decimal_chars(n);
    string_of(&v)
}

} // verus!
