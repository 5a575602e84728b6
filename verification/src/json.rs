//! JSON records as the library holds them, and when two of them are equal.
use crate::text::text_equal;
use vstd::prelude::*;

verus! {

/// A JSON value. A number is held as the text serde_json writes for it; an object as
/// its members in order.
pub enum Json {
    Null,
    Bool(bool),
    Number(String),
    Text(String),
    Array(Vec<Json>),
    Object(Vec<(String, Json)>),
}

/// The place of the first member of `y` with key `key`; -1 if there is none.
pub open spec fn key_index(y: Seq<(String, Json)>, key: Seq<char>) -> int
    decreases y.len(),
{
    if y.len() == 0 {
        -1
    } else if y[0].0@ == key {
        0
    } else {
        let r = key_index(y.drop_first(), key);
        if r < 0 {
            -1
        } else {
            r + 1
        }
    }
}

/// Whether two JSON values are equal as serde_json compares them: numbers and strings
/// by their text, arrays item by item, objects by their members whatever their order
/// (each member of the first against the member of the second with its key).
pub open spec fn json_eq(a: Json, b: Json) -> bool
    decreases a,
{
    match (a, b) {
        (Json::Null, Json::Null) => true,
        (Json::Bool(x), Json::Bool(y)) => x == y,
        (Json::Number(x), Json::Number(y)) => x@ == y@,
        (Json::Text(x), Json::Text(y)) => x@ == y@,
        (Json::Array(x), Json::Array(y)) => x@.len() == y@.len() && forall|i: int|
            0 <= i < x@.len() ==> json_eq(#[trigger] x@[i], y@[i]),
        (Json::Object(x), Json::Object(y)) => x@.len() == y@.len() && forall|i: int|
            0 <= i < x@.len() ==> key_index(y@, (#[trigger] x@[i]).0@) >= 0 && json_eq(
                x@[i].1,
                y@[key_index(y@, x@[i].0@)].1,
            ),
        _ => false,
    }
}

proof fn lemma_key_index(y: Seq<(String, Json)>, key: Seq<char>, j: int)
    requires
        0 <= j <= y.len(),
        forall|m: int| 0 <= m < j ==> (#[trigger] y[m]).0@ != key,
        j < y.len() ==> y[j].0@ == key,
    ensures
        key_index(y, key) == if j < y.len() {
            j
        } else {
            -1
        },
    decreases j,
{
    if y.len() > 0 && j > 0 {
        assert(y[0].0@ != key);
        assert forall|m: int| 0 <= m < j - 1 implies (#[trigger] y.drop_first()[m]).0@ != key by {
            assert(y.drop_first()[m] == y[m + 1]);
        }
        if j < y.len() {
            assert(y.drop_first()[j - 1] == y[j]);
        }
        lemma_key_index(y.drop_first(), key, j - 1);
    }
}

/// Whether two JSON values are equal, as `json_eq` says.
pub fn json_equal(a: &Json, b: &Json) -> (r: bool)
    ensures
        r == json_eq(*a, *b),
    decreases a,
{
    match (a, b) {
        (Json::Null, Json::Null) => true,
        (Json::Bool(x), Json::Bool(y)) => *x == *y,
        (Json::Number(x), Json::Number(y)) => text_equal(x.as_str(), y.as_str()),
        (Json::Text(x), Json::Text(y)) => text_equal(x.as_str(), y.as_str()),
        (Json::Array(x), Json::Array(y)) => {
            assert(json_eq(*a, *b) == (x@.len() == y@.len() && forall|k: int|
                0 <= k < x@.len() ==> json_eq(#[trigger] x@[k], y@[k])));
            if x.len() != y.len() {
                return false;
            }
            let mut i: usize = 0;
            while i < x.len()
                invariant
                    i <= x@.len(),
                    x@.len() == y@.len(),
                    *a == Json::Array(*x),
                    *b == Json::Array(*y),
                    json_eq(*a, *b) == (x@.len() == y@.len() && forall|k: int|
                        0 <= k < x@.len() ==> json_eq(#[trigger] x@[k], y@[k])),
                    forall|k: int| 0 <= k < i ==> json_eq(#[trigger] x@[k], y@[k]),
                decreases x.len() - i,
            {
                proof {
                    assert(decreases_to!(*a => a->Array_0));
                    assert(decreases_to!(a->Array_0 => a->Array_0@));
                    assert(decreases_to!(a->Array_0@ => a->Array_0@[i as int]));
                }
                if !json_equal(&x[i], &y[i]) {
                    return false;
                }
                i += 1;
            }
            true
        },
        (Json::Object(x), Json::Object(y)) => {
            assert(json_eq(*a, *b) == (x@.len() == y@.len() && forall|k: int|
                0 <= k < x@.len() ==> key_index(y@, (#[trigger] x@[k]).0@) >= 0 && json_eq(
                    x@[k].1,
                    y@[key_index(y@, x@[k].0@)].1,
                )));
            if x.len() != y.len() {
                return false;
            }
            let mut i: usize = 0;
            while i < x.len()
                invariant
                    i <= x@.len(),
                    x@.len() == y@.len(),
                    *a == Json::Object(*x),
                    *b == Json::Object(*y),
                    json_eq(*a, *b) == (x@.len() == y@.len() && forall|k: int|
                        0 <= k < x@.len() ==> key_index(y@, (#[trigger] x@[k]).0@) >= 0 && json_eq(
                            x@[k].1,
                            y@[key_index(y@, x@[k].0@)].1,
                        )),
                    forall|k: int|
                        0 <= k < i ==> key_index(y@, (#[trigger] x@[k]).0@) >= 0 && json_eq(
                            x@[k].1,
                            y@[key_index(y@, x@[k].0@)].1,
                        ),
                decreases x.len() - i,
            {
                let mut j: usize = 0;
                while j < y.len() && !text_equal(x[i].0.as_str(), y[j].0.as_str())
                    invariant
                        j <= y@.len(),
                        i < x@.len(),
                        forall|m: int| 0 <= m < j ==> (#[trigger] y@[m]).0@ != x@[i as int].0@,
                    decreases y.len() - j,
                {
                    j += 1;
                }
                proof {
                    lemma_key_index(y@, x@[i as int].0@, j as int);
                }
                if j == y.len() {
                    return false;
                }
                proof {
                    assert(decreases_to!(*a => a->Object_0));
                    assert(decreases_to!(a->Object_0 => a->Object_0@));
                    assert(decreases_to!(a->Object_0@ => a->Object_0@[i as int]));
                    assert(decreases_to!(a->Object_0@[i as int] => a->Object_0@[i as int].1));
                }
                if !json_equal(&x[i].1, &y[j].1) {
                    return false;
                }
                i += 1;
            }
            true
        },
        _ => false,
    }
}

} // verus!
