//! A JSON value as the policy logic reads it: condition values, context
//! evidence, session fields and execution bindings.
use vstd::prelude::*;

verus! {

/// A JSON number as serde_json holds it. A float is held by its IEEE-754 bit
/// pattern, with negative zero held as positive zero, so that two floats are
/// equal exactly when their bit patterns are.
#[derive(Clone, Copy, Debug, PartialEq, Eq, Structural)]
pub enum JsonNumber {
    PosInt(u64),
    NegInt(i64),
    Float(u64),
}

/// A JSON value. The entries of an object are held in key order, each key
/// once, as serde_json's map keeps them.
#[derive(Debug)]
pub enum JsonValue {
    Null,
    Bool(bool),
    Number(JsonNumber),
    Text(String),
    Array(Vec<JsonValue>),
    Object(Vec<(String, JsonValue)>),
}

/// Equality of JSON values: the same variant with equal contents, arrays and
/// objects entry by entry.
pub open spec fn json_same(a: JsonValue, b: JsonValue) -> bool
    decreases a,
{
    match a {
        JsonValue::Null => b is Null,
        JsonValue::Bool(x) => b matches JsonValue::Bool(y) && x == y,
        JsonValue::Number(x) => b matches JsonValue::Number(y) && x == y,
        JsonValue::Text(x) => b matches JsonValue::Text(y) && x@ == y@,
        JsonValue::Array(x) => b matches JsonValue::Array(y) && x@.len() == y@.len() && forall|
            i: int,
        |
            0 <= i < x@.len() ==> json_same(#[trigger] x@[i], y@[i]),
        JsonValue::Object(x) => b matches JsonValue::Object(y) && x@.len() == y@.len() && forall|
            i: int,
        |
            0 <= i < x@.len() ==> (#[trigger] x@[i]).0@ == y@[i].0@ && json_same(x@[i].1, y@[i].1),
    }
}

/// Decides `json_same`.
pub fn json_eq(a: &JsonValue, b: &JsonValue) -> (r: bool)
    ensures
        r == json_same(*a, *b),
    decreases a,
{
    match a {
        JsonValue::Null => matches!(b, JsonValue::Null),
        JsonValue::Bool(x) => match b {
            JsonValue::Bool(y) => *x == *y,
            _ => false,
        },
        JsonValue::Number(x) => match b {
            JsonValue::Number(y) => *x == *y,
            _ => false,
        },
        JsonValue::Text(x) => match b {
            JsonValue::Text(y) => *x == *y,
            _ => false,
        },
        JsonValue::Array(x) => match b {
            JsonValue::Array(y) => {
                if x.len() != y.len() {
                    return false;
                }
                let mut i: usize = 0;
                while i < x.len()
                    invariant
                        *a == JsonValue::Array(*x),
                        *b == JsonValue::Array(*y),
                        x.len() == y.len(),
                        i <= x.len(),
                        forall|j: int| 0 <= j < i ==> json_same(#[trigger] x@[j], y@[j]),
                    decreases x.len() - i,
                {
                    proof {
                        let xv: Vec<JsonValue> = *x;
                        assert(decreases_to!(xv => xv[i as int]));
                        assert(decreases_to!(*a => (*a)->Array_0));
                        assert(decreases_to!(*a => x@[i as int]));
                    }
                    if !json_eq(&x[i], &y[i]) {
                        assert(!json_same(x@[i as int], y@[i as int]));
                        return false;
                    }
                    i = i + 1;
                }
                true
            },
            _ => false,
        },
        JsonValue::Object(x) => match b {
            JsonValue::Object(y) => {
                if x.len() != y.len() {
                    return false;
                }
                let mut i: usize = 0;
                while i < x.len()
                    invariant
                        *a == JsonValue::Object(*x),
                        *b == JsonValue::Object(*y),
                        x.len() == y.len(),
                        i <= x.len(),
                        forall|j: int|
                            0 <= j < i ==> (#[trigger] x@[j]).0@ == y@[j].0@ && json_same(
                                x@[j].1,
                                y@[j].1,
                            ),
                    decreases x.len() - i,
                {
                    proof {
                        let xv: Vec<(String, JsonValue)> = *x;
                        assert(decreases_to!(xv => xv[i as int]));
                        assert(decreases_to!(*a => (*a)->Object_0));
                        assert(decreases_to!(xv[i as int] => xv[i as int].1));
                        assert(decreases_to!(*a => x@[i as int].1));
                    }
                    if x[i].0 != y[i].0 {
                        assert(x@[i as int].0@ != y@[i as int].0@);
                        return false;
                    }
                    if !json_eq(&x[i].1, &y[i].1) {
                        assert(!json_same(x@[i as int].1, y@[i as int].1));
                        return false;
                    }
                    i = i + 1;
                }
                true
            },
            _ => false,
        },
    }
}

/// A copy of a JSON value, entry for entry.
pub fn json_copy(a: &JsonValue) -> (r: JsonValue)
    ensures
        json_same(r, *a),
    decreases a,
{
    match a {
        JsonValue::Null => JsonValue::Null,
        JsonValue::Bool(x) => JsonValue::Bool(*x),
        JsonValue::Number(x) => JsonValue::Number(*x),
        JsonValue::Text(x) => JsonValue::Text(x.clone()),
        JsonValue::Array(x) => {
            let mut out: Vec<JsonValue> = Vec::new();
            let mut i: usize = 0;
            while i < x.len()
                invariant
                    *a == JsonValue::Array(*x),
                    i <= x.len(),
                    out@.len() == i,
                    forall|j: int| 0 <= j < i ==> json_same(#[trigger] out@[j], x@[j]),
                decreases x.len() - i,
            {
                proof {
                    let xv: Vec<JsonValue> = *x;
                    assert(decreases_to!(xv => xv[i as int]));
                    assert(decreases_to!(*a => (*a)->Array_0));
                    assert(decreases_to!(*a => x@[i as int]));
                }
                let item = json_copy(&x[i]);
                out.push(item);
                i = i + 1;
            }
            JsonValue::Array(out)
        },
        JsonValue::Object(x) => {
            let mut out: Vec<(String, JsonValue)> = Vec::new();
            let mut i: usize = 0;
            while i < x.len()
                invariant
                    *a == JsonValue::Object(*x),
                    i <= x.len(),
                    out@.len() == i,
                    forall|j: int|
                        0 <= j < i ==> (#[trigger] out@[j]).0@ == x@[j].0@ && json_same(out@[j].1, x@[j].1),
                decreases x.len() - i,
            {
                proof {
                    let xv: Vec<(String, JsonValue)> = *x;
                    assert(decreases_to!(xv => xv[i as int]));
                    assert(decreases_to!(*a => (*a)->Object_0));
                    assert(decreases_to!(xv[i as int] => xv[i as int].1));
                    assert(decreases_to!(*a => x@[i as int].1));
                }
                let value = json_copy(&x[i].1);
                out.push((x[i].0.clone(), value));
                i = i + 1;
            }
            JsonValue::Object(out)
        },
    }
}

/// The text held by a JSON string value.
pub open spec fn json_text(v: JsonValue) -> Option<Seq<char>> {
    match v {
        JsonValue::Text(s) => Some(s@),
        _ => None,
    }
}

/// Whether some entry of `items` equals `v`.
pub open spec fn json_among(items: Seq<JsonValue>, v: JsonValue) -> bool {
    exists|i: int| 0 <= i < items.len() && json_same(#[trigger] items[i], v)
}

/// Decides `json_among`.
pub fn json_contains(items: &Vec<JsonValue>, v: &JsonValue) -> (r: bool)
    ensures
        r == json_among(items@, *v),
{
    let mut i: usize = 0;
    while i < items.len()
        invariant
            i <= items.len(),
            forall|j: int| 0 <= j < i ==> !json_same(#[trigger] items@[j], *v),
        decreases items.len() - i,
    {
        if json_eq(&items[i], v) {
            return true;
        }
        i = i + 1;
    }
    false
}

} // verus!
