//! The difference between two states: what a subscriber needs to learn of
//! the new state given the old one.
use vstd::prelude::*;
use crate::json::{
    array_view, empty_object, entries_get, integral, entries_view, keys_sorted, lemma_array_item_decreases,
    lemma_entries_get_wf, lemma_entry_value_decreases, lemma_json_eq_refl, lemma_view_array,
    lemma_view_object, Entries, Json, JsonValue,
};

verus! {

/// The difference of `b` from `a`: an empty object where they are equal;
/// key by key for two objects (keys of `b`, each with the difference from the
/// value `a` holds under it, or `b`'s own value where `a` has none); index by
/// index for two arrays (length of `b`); `b` itself otherwise.
pub open spec fn json_difference(a: JsonValue, b: JsonValue) -> JsonValue
    decreases b,
{
    if a.json_eq(b) {
        empty_object()
    } else {
        match b {
            JsonValue::Array(y) => match a {
                JsonValue::Array(x) => JsonValue::Array(
                    Seq::new(
                        y.len(),
                        |i: int|
                            if 0 <= i < y.len() {
                                if i < x.len() {
                                    json_difference(x[i], y[i])
                                } else {
                                    y[i]
                                }
                            } else {
                                JsonValue::Null
                            },
                    ),
                ),
                _ => b,
            },
            JsonValue::Object(y) => match a {
                JsonValue::Object(x) => JsonValue::Object(
                    Seq::new(
                        y.len(),
                        |i: int|
                            if 0 <= i < y.len() {
                                (
                                    y[i].0,
                                    match entries_get(x, y[i].0) {
                                        Some(v1) => json_difference(v1, y[i].1),
                                        None => y[i].1,
                                    },
                                )
                            } else {
                                (Seq::empty(), JsonValue::Null)
                            },
                    ),
                ),
                _ => b,
            },
            _ => b,
        }
    }
}

/// The difference between a value and a newer one.
pub trait Difference {
    fn difference(&self, other: &Json) -> Json;
}

impl Difference for Json {
    fn difference(&self, other: &Json) -> (r: Json)
        ensures
            r.view() == json_difference(self.view(), other.view()),
    {
        difference_of(self, other)
    }
}

/// The difference of `new` from `old`.
pub fn difference_of(old: &Json, new: &Json) -> (r: Json)
    ensures
        r.view() == json_difference(old.view(), new.view()),
    decreases new,
{
    if old.json_equals(new) {
        let e: Vec<(String, Json)> = Vec::new();
        proof {
            lemma_view_object(e);
            assert(entries_view(e@) =~= Seq::empty());
        }
        return Json::Object(e);
    }
    match new {
        Json::Array(y) => match old {
            Json::Array(x) => {
                proof {
                    lemma_view_array(*x);
                    lemma_view_array(*y);
                }
                let ghost xv = array_view(x@);
                let ghost yv = array_view(y@);
                let mut out: Vec<Json> = Vec::new();
                let mut i: usize = 0;
                while i < y.len()
                    invariant
                        *new == Json::Array(*y),
                        xv == array_view(x@),
                        yv == array_view(y@),
                        i <= y.len(),
                        out@.len() == i,
                        forall|j: int|
                            0 <= j < i ==> (#[trigger] out@[j]).view() == if j < xv.len() {
                                json_difference(xv[j], yv[j])
                            } else {
                                yv[j]
                            },
                    decreases y.len() - i,
                {
                    proof {
                        lemma_array_item_decreases(*new, i as int);
                    }
                    let d = if i < x.len() {
                        difference_of(&x[i], &y[i])
                    } else {
                        y[i].deep_clone()
                    };
                    out.push(d);
                    i = i + 1;
                }
                proof {
                    lemma_view_array(out);
                    let d = json_difference(old.view(), new.view());
                    assert(array_view(out@) =~= d->Array_0);
                }
                Json::Array(out)
            },
            _ => new.deep_clone(),
        },
        Json::Object(y) => match old {
            Json::Object(x) => {
                proof {
                    lemma_view_object(*x);
                    lemma_view_object(*y);
                }
                let ghost xv = entries_view(x@);
                let ghost yv = entries_view(y@);
                let mut out: Vec<(String, Json)> = Vec::new();
                let mut i: usize = 0;
                while i < y.len()
                    invariant
                        *new == Json::Object(*y),
                        old.view() == JsonValue::Object(xv),
                        xv == entries_view(x@),
                        yv == entries_view(y@),
                        i <= y.len(),
                        out@.len() == i,
                        forall|j: int|
                            0 <= j < i ==> (#[trigger] out@[j]).0@ == yv[j].0 && out@[j].1.view() == match entries_get(
                                xv,
                                yv[j].0,
                            ) {
                                Some(v1) => json_difference(v1, yv[j].1),
                                None => yv[j].1,
                            },
                    decreases y.len() - i,
                {
                    proof {
                        lemma_entry_value_decreases(*new, i as int);
                        assert(yv[i as int] == (y@[i as int].0@, y@[i as int].1.view()));
                    }
                    let k = y[i].0.clone();
                    let d = match old.get(y[i].0.as_str()) {
                        Some(v1) => difference_of(v1, &y[i].1),
                        None => y[i].1.deep_clone(),
                    };
                    out.push((k, d));
                    i = i + 1;
                }
                proof {
                    lemma_view_object(out);
                    let d = json_difference(old.view(), new.view());
                    assert(entries_view(out@) =~= d->Object_0);
                }
                Json::Object(out)
            },
            _ => new.deep_clone(),
        },
        _ => new.deep_clone(),
    }
}

// ----- laws ----------------------------------------------------------------

/// A value compared with an equal one has an empty difference.
pub proof fn lemma_difference_of_equal(a: JsonValue, b: JsonValue)
    requires
        a.json_eq(b),
    ensures
        json_difference(a, b) == empty_object(),
{
}

/// A state compared with itself has an empty difference (`old.difference(&old)` is `{}`).
pub proof fn lemma_difference_of_self(a: JsonValue)
    requires
        a.wf(),
    ensures
        json_difference(a, a) == empty_object(),
{
    lemma_json_eq_refl(a);
}

/// Where the two values differ and are not both objects or both arrays, the
/// difference is the new value itself.
pub proof fn lemma_difference_replaces(a: JsonValue, b: JsonValue)
    requires
        !a.json_eq(b),
        !(a is Object && b is Object),
        !(a is Array && b is Array),
    ensures
        json_difference(a, b) == b,
{
}

/// The difference of two different objects has exactly the keys of the new
/// one, in its order; of two different arrays, the length of the new one.
pub proof fn lemma_difference_shape(a: JsonValue, b: JsonValue)
    requires
        !a.json_eq(b),
    ensures
        a is Object && b is Object ==> json_difference(a, b) is Object && json_difference(
            a,
            b,
        )->Object_0.len() == b->Object_0.len() && forall|i: int|
            0 <= i < b->Object_0.len() ==> (#[trigger] json_difference(a, b)->Object_0[i]).0
                == b->Object_0[i].0,
        a is Array && b is Array ==> json_difference(a, b) is Array && json_difference(
            a,
            b,
        )->Array_0.len() == b->Array_0.len(),
{
}

/// Two different arrays differ element by element: below the old length,
/// each element of the difference is the difference of the two elements, so
/// an element equal to the old one becomes `{}` whatever its kind; past the old
/// length it is the new element itself.
pub proof fn lemma_difference_of_arrays(x: Seq<JsonValue>, y: Seq<JsonValue>)
    requires
        !JsonValue::Array(x).json_eq(JsonValue::Array(y)),
    ensures
        json_difference(JsonValue::Array(x), JsonValue::Array(y)) is Array,
        json_difference(JsonValue::Array(x), JsonValue::Array(y))->Array_0.len() == y.len(),
        forall|i: int|
            0 <= i < y.len() && i < x.len() ==> #[trigger] json_difference(
                JsonValue::Array(x),
                JsonValue::Array(y),
            )->Array_0[i] == json_difference(x[i], y[i]),
        forall|i: int|
            0 <= i < y.len() && i < x.len() && x[i].json_eq(y[i]) ==> #[trigger] json_difference(
                JsonValue::Array(x),
                JsonValue::Array(y),
            )->Array_0[i] == empty_object(),
        forall|i: int|
            x.len() <= i < y.len() ==> #[trigger] json_difference(
                JsonValue::Array(x),
                JsonValue::Array(y),
            )->Array_0[i] == y[i],
{
    assert forall|i: int| 0 <= i < y.len() && i < x.len() && x[i].json_eq(y[i]) implies #[trigger] json_difference(
        JsonValue::Array(x),
        JsonValue::Array(y),
    )->Array_0[i] == empty_object() by {
        lemma_difference_of_equal(x[i], y[i]);
    }
}

/// Two different objects differ key by key: the difference has the keys of
/// the new object; under a key the old object also has, it holds the
/// difference of the two values, so an unchanged value becomes `{}`; under a
/// new key, the new value itself.
pub proof fn lemma_difference_of_objects(x: Entries, y: Entries)
    requires
        !JsonValue::Object(x).json_eq(JsonValue::Object(y)),
    ensures
        json_difference(JsonValue::Object(x), JsonValue::Object(y)) is Object,
        json_difference(JsonValue::Object(x), JsonValue::Object(y))->Object_0.len() == y.len(),
        forall|i: int|
            0 <= i < y.len() ==> (#[trigger] json_difference(
                JsonValue::Object(x),
                JsonValue::Object(y),
            )->Object_0[i]).0 == y[i].0,
        forall|i: int|
            0 <= i < y.len() ==> match entries_get(x, y[i].0) {
                Some(v) => (#[trigger] json_difference(JsonValue::Object(x), JsonValue::Object(y))->Object_0[i]).1
                    == json_difference(v, y[i].1),
                None => json_difference(JsonValue::Object(x), JsonValue::Object(y))->Object_0[i].1 == y[i].1,
            },
        forall|i: int|
            0 <= i < y.len() && (entries_get(x, y[i].0) matches Some(v) && v.json_eq(y[i].1))
                ==> (#[trigger] json_difference(JsonValue::Object(x), JsonValue::Object(y))->Object_0[i]).1
                == empty_object(),
{
    assert forall|i: int|
        0 <= i < y.len() && (entries_get(x, y[i].0) matches Some(v) && v.json_eq(y[i].1)) implies (
    #[trigger] json_difference(JsonValue::Object(x), JsonValue::Object(y))->Object_0[i]).1 == empty_object() by {
        lemma_difference_of_equal(entries_get(x, y[i].0).unwrap(), y[i].1);
    }
}

/// A value that changed and is not an object or array on both sides is sent
/// whole: for well-formed values without doubles (booleans, strings,
/// integers, null), any change gives the new value as the difference, never `{}`.
pub proof fn lemma_changed_value_is_sent(a: JsonValue, b: JsonValue)
    requires
        a.wf(),
        b.wf(),
        integral(a),
        integral(b),
        a != b,
        !(a is Object && b is Object),
        !(a is Array && b is Array),
    ensures
        json_difference(a, b) == b,
{
    crate::json::lemma_json_eq_is_equality(a, b);
}

/// The difference of two well-formed values is well-formed: it is again a
/// value the JSON library can hold.
pub proof fn lemma_difference_wf(a: JsonValue, b: JsonValue)
    requires
        a.wf(),
        b.wf(),
    ensures
        json_difference(a, b).wf(),
    decreases b,
{
    let d = json_difference(a, b);
    if a.json_eq(b) {
        assert(keys_sorted(Seq::<(Seq<char>, JsonValue)>::empty()));
    } else {
        match b {
            JsonValue::Array(y) => match a {
                JsonValue::Array(x) => {
                    assert forall|i: int| 0 <= i < d->Array_0.len() implies (#[trigger] d->Array_0[i]).wf() by {
                        if i < x.len() {
                            lemma_difference_wf(x[i], y[i]);
                        }
                    }
                },
                _ => {},
            },
            JsonValue::Object(y) => match a {
                JsonValue::Object(x) => {
                    let e = d->Object_0;
                    assert forall|i: int, j: int| 0 <= i < j < e.len() implies crate::text::chars_lt(
                        #[trigger] e[i].0,
                        #[trigger] e[j].0,
                    ) by {
                        assert(e[i].0 == y[i].0 && e[j].0 == y[j].0);
                    }
                    assert forall|i: int| 0 <= i < e.len() implies (#[trigger] e[i]).1.wf() by {
                        lemma_entries_get_wf(x, y[i].0);
                        if let Some(v1) = entries_get(x, y[i].0) {
                            lemma_difference_wf(v1, y[i].1);
                        }
                    }
                },
                _ => {},
            },
            _ => {},
        }
    }
}

} // verus!
