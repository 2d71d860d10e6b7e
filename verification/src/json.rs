//! JSON values and configuration overrides given as `dotted.path=value`.
//!
//! An override walks the dotted path from the root, creating containers on
//! the way (an array when the next part is an index, else an object), and
//! sets the last part to the value. A step that meets a scalar, or an array
//! with a part that is not an index, stops the walk with an error.

use crate::strmap::StrMap;
use crate::text::{
    chars_of, parse_i64, parse_i64_in, parse_usize, parse_usize_in, split_char, split_on,
    str_eq, string_views,
};
use vstd::prelude::*;
use vstd::string::StringExecFns;

verus! {

/// A JSON number: a non-negative integer, a negative integer, or any other
/// number by its JSON text.
#[derive(Debug, Clone, PartialEq)]
pub enum JsonNumber {
    PosInt(u64),
    NegInt(i64),
    Float(String),
}

/// A JSON value.
#[derive(Debug)]
pub enum JsonValue {
    Null,
    Bool(bool),
    Number(JsonNumber),
    String(String),
    Array(Vec<JsonValue>),
    Object(StrMap<JsonValue>),
}

/// What an override step sees of a value: the entries of an object, the
/// elements of an array, or a scalar.
pub enum JsonShape {
    Obj(Map<Seq<char>, JsonValue>),
    Arr(Seq<JsonValue>),
    Scalar(JsonValue),
}

/// The shape of a value.
pub open spec fn shape_of(v: JsonValue) -> JsonShape {
    match v {
        JsonValue::Object(m) => JsonShape::Obj(m@),
        JsonValue::Array(a) => JsonShape::Arr(a@),
        _ => JsonShape::Scalar(v),
    }
}

/// The container created for a missing step whose next part is `next`: an
/// empty array when `next` is an index, else an empty object.
pub open spec fn fresh_shape(next: Seq<char>) -> JsonShape {
    if parse_usize(next) is Some {
        JsonShape::Arr(Seq::empty())
    } else {
        JsonShape::Obj(Map::empty())
    }
}

/// The error for a part that should index an array and does not.
pub open spec fn index_error(part: Seq<char>, path: Seq<char>) -> Seq<char> {
    "Expected array index but found '"@ + part + "' at path "@ + path
}

/// The error for a last step that meets a scalar.
pub open spec fn leaf_error(path: Seq<char>) -> Seq<char> {
    "Cannot set property of non-object/non-array for path "@ + path
}

/// The error for an inner step that meets a scalar.
pub open spec fn step_error(part: Seq<char>, path: Seq<char>) -> Seq<char> {
    "Expected object or array at part '"@ + part + "' for path "@ + path
}

/// `a` padded with `Null` to at least `n` elements.
pub open spec fn padded_with_null(a: Seq<JsonValue>, n: int) -> Seq<JsonValue> {
    if a.len() >= n {
        a
    } else {
        a + Seq::new((n - a.len()) as nat, |j: int| JsonValue::Null)
    }
}

/// Setting `val` at `parts[i..]` in a value of shape `old` gives `new` and
/// error `err` (`path` is the whole dotted path, for messages).
pub open spec fn set_outcome(
    old: JsonShape,
    parts: Seq<Seq<char>>,
    i: int,
    val: JsonValue,
    path: Seq<char>,
    new: JsonValue,
    err: Option<Seq<char>>,
) -> bool
    decreases parts.len() - i,
{
    if i < 0 || i >= parts.len() {
        false
    } else if i + 1 == parts.len() {
        let p = parts[i];
        match old {
            JsonShape::Obj(m) => {
                &&& err is None
                &&& new matches JsonValue::Object(m2) && m2@ == m.insert(p, val)
            },
            JsonShape::Arr(a) => match parse_usize(p) {
                Some(idx) => {
                    &&& err is None
                    &&& new matches JsonValue::Array(a2) && a2@ == padded_with_null(a, idx + 1).update(
                        idx as int,
                        val,
                    )
                },
                None => {
                    &&& err == Some(index_error(p, path))
                    &&& new matches JsonValue::Array(a2) && a2@ == a
                },
            },
            JsonShape::Scalar(v) => err == Some(leaf_error(path)) && new == v,
        }
    } else {
        let p = parts[i];
        let next = parts[i + 1];
        match old {
            JsonShape::Obj(m) => new matches JsonValue::Object(m2) && m2@.dom() == m.dom().insert(p)
                && (forall|k: Seq<char>|
                #![trigger m2@[k]]
                k != p && m.contains_key(k) ==> m2@[k] == m[k]) && set_outcome(
                if m.contains_key(p) {
                    shape_of(m[p])
                } else {
                    fresh_shape(next)
                },
                parts,
                i + 1,
                val,
                path,
                m2@[p],
                err,
            ),
            JsonShape::Arr(a) => match parse_usize(p) {
                Some(idx) => new matches JsonValue::Array(a2) && a2@.len() == (if a.len() > idx {
                    a.len() as int
                } else {
                    idx + 1
                }) && (forall|j: int|
                    #![trigger a2@[j]]
                    0 <= j < a2@.len() && j != idx ==> if j < a.len() {
                        a2@[j] == a[j]
                    } else {
                        shape_of(a2@[j]) == fresh_shape(next)
                    }) && set_outcome(
                    if idx < a.len() {
                        shape_of(a[idx as int])
                    } else {
                        fresh_shape(next)
                    },
                    parts,
                    i + 1,
                    val,
                    path,
                    a2@[idx as int],
                    err,
                ),
                None => {
                    &&& err == Some(index_error(p, path))
                    &&& new matches JsonValue::Array(a2) && a2@ == a
                },
            },
            JsonShape::Scalar(v) => err == Some(step_error(p, path)) && new == v,
        }
    }
}

/// The value found by following `parts[i..]` from `v`, if every step
/// exists.
pub open spec fn get_path(v: JsonValue, parts: Seq<Seq<char>>, i: int) -> Option<JsonValue>
    decreases parts.len() - i,
{
    if i < 0 || i >= parts.len() {
        Some(v)
    } else {
        match v {
            JsonValue::Object(m) => if m@.contains_key(parts[i]) {
                get_path(m@[parts[i]], parts, i + 1)
            } else {
                None
            },
            JsonValue::Array(a) => match parse_usize(parts[i]) {
                Some(idx) => if idx < a@.len() {
                    get_path(a@[idx as int], parts, i + 1)
                } else {
                    None
                },
                None => None,
            },
            _ => None,
        }
    }
}

/// The text of an optional error.
pub open spec fn error_view(e: Option<String>) -> Option<Seq<char>> {
    match e {
        Some(s) => Some(s@),
        None => None,
    }
}

/// The walk that sets `parts[i..]` in a value of shape `old` never meets an
/// array at the largest `usize` as index: an array that long could never
/// be made, and making room for it overflows.
pub open spec fn indices_allocatable(old: JsonShape, parts: Seq<Seq<char>>, i: int) -> bool
    decreases parts.len() - i,
{
    if i < 0 || i >= parts.len() {
        true
    } else {
        let p = parts[i];
        match old {
            JsonShape::Obj(m) => i + 1 == parts.len() || indices_allocatable(
                if m.contains_key(p) {
                    shape_of(m[p])
                } else {
                    fresh_shape(parts[i + 1])
                },
                parts,
                i + 1,
            ),
            JsonShape::Arr(a) => match parse_usize(p) {
                Some(idx) => idx != usize::MAX && (i + 1 == parts.len() || indices_allocatable(
                    if idx < a.len() {
                        shape_of(a[idx as int])
                    } else {
                        fresh_shape(parts[i + 1])
                    },
                    parts,
                    i + 1,
                )),
                None => true,
            },
            JsonShape::Scalar(_) => true,
        }
    }
}

/// After a successful override the path leads to the value written.
pub proof fn lemma_override_then_read(
    old: JsonShape,
    parts: Seq<Seq<char>>,
    i: int,
    val: JsonValue,
    path: Seq<char>,
    new: JsonValue,
)
    requires
        set_outcome(old, parts, i, val, path, new, None),
    ensures
        get_path(new, parts, i) == Some(val),
    decreases parts.len() - i,
{
    if i == parts.len() - 1 {
        match old {
            JsonShape::Obj(m) => {
                assert(get_path(val, parts, i + 1) == Some(val));
            },
            JsonShape::Arr(a) => {
                assert(get_path(val, parts, i + 1) == Some(val));
            },
            JsonShape::Scalar(v) => {},
        }
    } else {
        let p = parts[i];
        let next = parts[i + 1];
        match old {
            JsonShape::Obj(m) => {
                let m2 = new->Object_0;
                lemma_override_then_read(
                    if m.contains_key(p) {
                        shape_of(m[p])
                    } else {
                        fresh_shape(next)
                    },
                    parts,
                    i + 1,
                    val,
                    path,
                    m2@[p],
                );
            },
            JsonShape::Arr(a) => {
                let idx = parse_usize(p)->0;
                let a2 = new->Array_0;
                lemma_override_then_read(
                    if idx < a.len() {
                        shape_of(a[idx as int])
                    } else {
                        fresh_shape(next)
                    },
                    parts,
                    i + 1,
                    val,
                    path,
                    a2@[idx as int],
                );
            },
            JsonShape::Scalar(v) => {},
        }
    }
}

/// The container made for a missing step whose next part is `next`.
fn fresh_container(next: &String) -> (v: JsonValue)
    ensures
        shape_of(v) == fresh_shape(next@),
{
    let c = chars_of(next.as_str());
    assert(c@.subrange(0, c@.len() as int) =~= next@);
    match parse_usize_in(&c, 0, c.len()) {
        Some(_) => {
            let a: Vec<JsonValue> = Vec::new();
            JsonValue::Array(a)
        },
        None => JsonValue::Object(StrMap::new()),
    }
}

/// The index written by `part`, if it is one.
fn index_of(part: &String) -> (r: Option<usize>)
    ensures
        r == parse_usize(part@),
{
    let c = chars_of(part.as_str());
    assert(c@.subrange(0, c@.len() as int) =~= part@);
    parse_usize_in(&c, 0, c.len())
}

fn index_error_exec(part: &String, path: &str) -> (e: String)
    ensures
        e@ == index_error(part@, path@),
{
    let mut e = String::from_str("Expected array index but found '");
    e.append(part.as_str());
    e.append("' at path ");
    e.append(path);
    e
}

fn leaf_error_exec(path: &str) -> (e: String)
    ensures
        e@ == leaf_error(path@),
{
    let mut e = String::from_str("Cannot set property of non-object/non-array for path ");
    e.append(path);
    e
}

fn step_error_exec(part: &String, path: &str) -> (e: String)
    ensures
        e@ == step_error(part@, path@),
{
    let mut e = String::from_str("Expected object or array at part '");
    e.append(part.as_str());
    e.append("' for path ");
    e.append(path);
    e
}

/// Sets `val` at `parts[i..]` in `old`; gives the new value and the error,
/// if any.
fn set_in(old: JsonValue, parts: &Vec<String>, i: usize, val: JsonValue, path: &str) -> (r: (
    JsonValue,
    Option<String>,
))
    requires
        i < parts@.len(),
        indices_allocatable(shape_of(old), string_views(parts@), i as int),
    ensures
        set_outcome(shape_of(old), string_views(parts@), i as int, val, path@, r.0, error_view(r.1)),
    decreases parts@.len() - i,
{
    let ghost ps = string_views(parts@);
    let part = &parts[i];
    assert(ps[i as int] == part@);
    if i == parts.len() - 1 {
        match old {
            JsonValue::Object(mut m) => {
                let _ = m.insert(part.clone(), val);
                (JsonValue::Object(m), None)
            },
            JsonValue::Array(mut a) => match index_of(part) {
                Some(idx) => {
                    assert(parse_usize(ps[i as int]) != Some(usize::MAX));
                    let ghost a0 = a@;
                    while a.len() <= idx
                        invariant
                            idx < usize::MAX,
                            a0.len() <= a@.len() <= (if a0.len() > idx {
                                a0.len() as int
                            } else {
                                idx + 1
                            }),
                            a@ == padded_with_null(a0, a@.len() as int),
                        decreases idx + 1 - a@.len(),
                    {
                        let ghost before = a@;
                        a.push(JsonValue::Null);
                        assert(a@ =~= padded_with_null(a0, a@.len() as int));
                    }
                    assert(a@ =~= padded_with_null(a0, idx + 1));
                    a.set(idx, val);
                    (JsonValue::Array(a), None)
                },
                None => {
                    let e = index_error_exec(part, path);
                    (JsonValue::Array(a), Some(e))
                },
            },
            other => {
                let e = leaf_error_exec(path);
                (other, Some(e))
            },
        }
    } else {
        let next = &parts[i + 1];
        assert(ps[i + 1] == next@);
        match old {
            JsonValue::Object(mut m) => {
                let ghost m0 = m@;
                let child = match m.insert(part.clone(), JsonValue::Null) {
                    Some(c) => c,
                    None => fresh_container(next),
                };
                let (new_child, err) = set_in(child, parts, i + 1, val, path);
                let _ = m.insert(part.clone(), new_child);
                assert(m@ =~= m0.insert(part@, new_child));
                assert(m@[part@] == new_child);
                (JsonValue::Object(m), err)
            },
            JsonValue::Array(mut a) => match index_of(part) {
                Some(idx) => {
                    assert(parse_usize(ps[i as int]) != Some(usize::MAX));
                    let ghost a0 = a@;
                    while a.len() <= idx
                        invariant
                            idx < usize::MAX,
                            a0.len() <= a@.len() <= (if a0.len() > idx {
                                a0.len() as int
                            } else {
                                idx + 1
                            }),
                            forall|j: int| 0 <= j < a0.len() ==> #[trigger] a@[j] == a0[j],
                            forall|j: int|
                                a0.len() <= j < a@.len() ==> shape_of(#[trigger] a@[j])
                                    == fresh_shape(next@),
                        decreases idx + 1 - a@.len(),
                    {
                        let f = fresh_container(next);
                        a.push(f);
                    }
                    let ghost a1 = a@;
                    let child = a.remove(idx);
                    let (new_child, err) = set_in(child, parts, i + 1, val, path);
                    a.insert(idx, new_child);
                    assert(a@ =~= a1.update(idx as int, new_child));
                    (JsonValue::Array(a), err)
                },
                None => {
                    let e = index_error_exec(part, path);
                    (JsonValue::Array(a), Some(e))
                },
            },
            other => {
                let e = step_error_exec(part, path);
                (other, Some(e))
            },
        }
    }
}

/// The parts of a dotted override path.
pub open spec fn override_parts(path: Seq<char>) -> Seq<Seq<char>> {
    split_on(path, '.')
}

/// Whether setting `parts[i..]` in `v` stays clear of the largest index.
fn fits_from(v: &JsonValue, parts: &Vec<String>, i: usize) -> (b: bool)
    requires
        i <= parts@.len(),
    ensures
        b == indices_allocatable(shape_of(*v), string_views(parts@), i as int),
    decreases parts@.len() - i,
{
    let ghost ps = string_views(parts@);
    if i == parts.len() {
        return true;
    }
    let part = &parts[i];
    assert(ps[i as int] == part@);
    let last = i + 1 == parts.len();
    if !last {
        assert(ps[i + 1] == parts@[i + 1]@);
    }
    match v {
        JsonValue::Object(m) => {
            if last {
                true
            } else {
                match m.get(part.as_str()) {
                    Some(child) => fits_from(child, parts, i + 1),
                    None => {
                        let fresh = fresh_container(&parts[i + 1]);
                        fits_from(&fresh, parts, i + 1)
                    },
                }
            }
        },
        JsonValue::Array(a) => match index_of(part) {
            Some(idx) => {
                if idx == usize::MAX {
                    false
                } else if last {
                    true
                } else if idx < a.len() {
                    fits_from(&a[idx], parts, i + 1)
                } else {
                    let fresh = fresh_container(&parts[i + 1]);
                    fits_from(&fresh, parts, i + 1)
                }
            },
            None => true,
        },
        _ => true,
    }
}

/// Whether `apply_override` can set the dotted `path` in `root`: its walk
/// never meets an array at the largest `usize` as index.
pub fn override_fits(root: &JsonValue, path: &str) -> (b: bool)
    ensures
        b == indices_allocatable(shape_of(*root), override_parts(path@), 0),
{
    let parts = split_char(path, '.');
    fits_from(root, &parts, 0)
}

/// Sets `val` at the dotted `path` in `root`, creating missing containers
/// on the way: an array when the next part is an index (padded with empty
/// containers of the same kind), else an object; an array at the last step
/// is padded with nulls. Fails when a step meets a scalar, or an array with
/// a part that is not an index.
pub fn apply_override(root: &mut JsonValue, path: &str, val: JsonValue) -> (r: Result<(), String>)
    requires
        indices_allocatable(shape_of(*old(root)), override_parts(path@), 0),
    ensures
        set_outcome(
            shape_of(*old(root)),
            override_parts(path@),
            0,
            val,
            path@,
            *final(root),
            match r {
                Ok(_) => None,
                Err(e) => Some(e@),
            },
        ),
{
    let parts = split_char(path, '.');
    proof {
        reveal_with_fuel(split_on, 1);
        crate::text::lemma_char_pos(path@, '.');
    }
    assert(parts@.len() == string_views(parts@).len());
    assert(parts@.len() > 0);
    let mut old = JsonValue::Null;
    std::mem::swap(&mut old, root);
    let (new, err) = set_in(old, &parts, 0, val, path);
    *root = new;
    match err {
        Some(e) => Err(e),
        None => Ok(()),
    }
}

/// The number that an `i64` makes: non-negative values are positive
/// integers, the others negative integers.
pub open spec fn number_of_i64(n: i64) -> JsonNumber {
    if n >= 0 {
        JsonNumber::PosInt(n as u64)
    } else {
        JsonNumber::NegInt(n)
    }
}

/// The value an override text stands for: `true` and `false` are booleans;
/// then a text that `i64` parsing accepts is that integer; then, when the
/// text reads as a floating-point number (`float_text` is `Some`), that
/// number's JSON text when it is finite, else the text as a string; then
/// the JSON value the text parses to (`json`); else the text as a string.
pub open spec fn override_value_of(
    s: Seq<char>,
    float_text: Option<Option<Seq<char>>>,
    json: Option<JsonValue>,
    v: JsonValue,
) -> bool {
    if s == "true"@ {
        v == JsonValue::Bool(true)
    } else if s == "false"@ {
        v == JsonValue::Bool(false)
    } else if parse_i64(s) is Some {
        v == JsonValue::Number(number_of_i64(parse_i64(s)->0))
    } else {
        match float_text {
            Some(Some(t)) => v matches JsonValue::Number(JsonNumber::Float(x)) && x@ == t,
            Some(None) => v matches JsonValue::String(x) && x@ == s,
            None => match json {
                Some(j) => v == j,
                None => v matches JsonValue::String(x) && x@ == s,
            },
        }
    }
}

/// The value of an override text, given what reading it as a floating-point
/// number gave (`None` when it does not read as one; `Some(None)` when the
/// number is not finite; else the number's JSON text) and what reading it
/// as JSON gave.
pub fn override_value(s: &str, float_text: Option<Option<String>>, json: Option<JsonValue>) -> (v:
    JsonValue)
    ensures
        override_value_of(
            s@,
            match float_text {
                Some(Some(t)) => Some(Some(t@)),
                Some(None) => Some(None),
                None => None,
            },
            json,
            v,
        ),
{
    if str_eq(s, "true") {
        return JsonValue::Bool(true);
    }
    if str_eq(s, "false") {
        return JsonValue::Bool(false);
    }
    let c = chars_of(s);
    assert(c@.subrange(0, c@.len() as int) =~= s@);
    match parse_i64_in(&c, 0, c.len()) {
        Some(n) => {
            if n >= 0 {
                return JsonValue::Number(JsonNumber::PosInt(n as u64));
            } else {
                return JsonValue::Number(JsonNumber::NegInt(n));
            }
        },
        None => {},
    }
    match float_text {
        Some(Some(t)) => JsonValue::Number(JsonNumber::Float(t)),
        Some(None) => JsonValue::String(String::from_str(s)),
        None => match json {
            Some(j) => j,
            None => JsonValue::String(String::from_str(s)),
        },
    }
}

} // verus!
