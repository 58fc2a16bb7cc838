//! Walking JSON values: finding the values a filter accepts, in the order a
//! depth-first walk tests them.
use vstd::prelude::*;
use crate::json::{lemma_array_item_decreases, lemma_entry_value_decreases, Json, JsonValue};

verus! {

/// The values that a walk tests, in order: for an object, each entry's value
/// and then the values its own walk tests; for an array, the values each
/// element's walk tests; any other value is tested itself.
pub open spec fn tested_values(v: Json) -> Seq<Json>
    decreases v,
{
    match v {
        Json::Object(m) => object_pieces(m@).flatten(),
        Json::Array(a) => array_pieces(a@).flatten(),
        _ => seq![v],
    }
}

/// What the walk of each entry of an object tests: its value, then what the
/// value's walk tests.
pub open spec fn object_pieces(m: Seq<(String, Json)>) -> Seq<Seq<Json>>
    decreases m,
{
    Seq::new(
        m.len(),
        |i: int|
            if 0 <= i < m.len() {
                seq![m[i].1] + tested_values(m[i].1)
            } else {
                Seq::empty()
            },
    )
}

/// What the walk of each element of an array tests.
pub open spec fn array_pieces(a: Seq<Json>) -> Seq<Seq<Json>>
    decreases a,
{
    Seq::new(
        a.len(),
        |i: int|
            if 0 <= i < a.len() {
                tested_values(a[i])
            } else {
                Seq::empty()
            },
    )
}

/// The elements of `s` whose mark in `keep` is set, in order.
pub open spec fn picked<T>(s: Seq<T>, keep: Seq<bool>) -> Seq<T>
    decreases s.len(),
{
    if s.len() == 0 || keep.len() == 0 {
        Seq::empty()
    } else {
        let rest = picked(s.drop_last(), keep.drop_last());
        if keep.last() {
            rest.push(s.last())
        } else {
            rest
        }
    }
}

/// Each mark in `keep` is a result the filter may give for the value at that place.
pub open spec fn marks_from<F: Fn(&Json) -> bool>(filter: F, s: Seq<Json>, keep: Seq<bool>) -> bool {
    &&& keep.len() == s.len()
    &&& forall|i: int| 0 <= i < s.len() ==> call_ensures(filter, (&s[i],), #[trigger] keep[i])
}

/// The values behind a list of references.
pub open spec fn derefs(s: Seq<&Json>) -> Seq<Json> {
    s.map_values(|r: &Json| *r)
}

proof fn lemma_picked_concat<T>(a: Seq<T>, ka: Seq<bool>, b: Seq<T>, kb: Seq<bool>)
    requires
        a.len() == ka.len(),
        b.len() == kb.len(),
    ensures
        picked(a + b, ka + kb) == picked(a, ka) + picked(b, kb),
    decreases b.len(),
{
    if b.len() == 0 {
        assert(a + b =~= a);
        assert(ka + kb =~= ka);
        assert(picked(a, ka) + picked(b, kb) =~= picked(a, ka));
    } else {
        lemma_picked_concat(a, ka, b.drop_last(), kb.drop_last());
        assert((a + b).drop_last() =~= a + b.drop_last());
        assert((ka + kb).drop_last() =~= ka + kb.drop_last());
        if kb.last() {
            assert(picked(a, ka) + picked(b, kb) =~= (picked(a, ka) + picked(b.drop_last(), kb.drop_last())).push(
                b.last(),
            ));
        }
    }
}

proof fn lemma_marks_concat<F: Fn(&Json) -> bool>(
    filter: F,
    a: Seq<Json>,
    ka: Seq<bool>,
    b: Seq<Json>,
    kb: Seq<bool>,
)
    requires
        marks_from(filter, a, ka),
        marks_from(filter, b, kb),
    ensures
        marks_from(filter, a + b, ka + kb),
{
    assert forall|i: int| 0 <= i < (a + b).len() implies call_ensures(filter, (&(a + b)[i],), #[trigger] (ka + kb)[i]) by {
        if i < a.len() {
            assert((a + b)[i] == a[i] && (ka + kb)[i] == ka[i]);
        } else {
            assert((a + b)[i] == b[i - a.len()] && (ka + kb)[i] == kb[i - a.len()]);
        }
    }
}

proof fn lemma_picked_one<T>(x: T, k: bool)
    ensures
        picked(seq![x], seq![k]) == if k {
            seq![x]
        } else {
            Seq::<T>::empty()
        },
{
    assert(seq![x].drop_last() =~= Seq::<T>::empty());
    assert(seq![k].drop_last() =~= Seq::<bool>::empty());
    assert(picked(Seq::<T>::empty(), Seq::<bool>::empty()) == Seq::<T>::empty());
    if k {
        assert(Seq::<T>::empty().push(x) =~= seq![x]);
    }
}

fn collect<'a, F: Fn(&Json) -> bool>(value: &'a Json, filter: &F, out: &mut Vec<&'a Json>) -> (keep: Ghost<Seq<bool>>)
    requires
        forall|v: &Json| call_requires(*filter, (v,)),
    ensures
        marks_from(*filter, tested_values(*value), keep@),
        derefs(final(out)@) == derefs(old(out)@) + picked(tested_values(*value), keep@),
    decreases value,
{
    let ghost out0 = derefs(out@);
    match value {
        Json::Object(m) => {
            let ghost pieces = object_pieces(m@);
            let ghost mut keep: Seq<bool> = Seq::empty();
            assert(pieces.take(0).flatten() =~= Seq::<Json>::empty());
            let mut i: usize = 0;
            while i < m.len()
                invariant
                    *value == Json::Object(*m),
                    forall|v: &Json| call_requires(*filter, (v,)),
                    pieces == object_pieces(m@),
                    i <= m@.len(),
                    marks_from(*filter, pieces.take(i as int).flatten(), keep),
                    derefs(out@) == out0 + picked(pieces.take(i as int).flatten(), keep),
                decreases m.len() - i,
            {
                proof {
                    lemma_entry_value_decreases(*value, i as int);
                }
                let v = &m[i].1;
                let ghost before = derefs(out@);
                let b = filter(v);
                if b {
                    out.push(v);
                }
                let ghost mid = derefs(out@);
                let sub = collect(v, filter, out);
                proof {
                    let t = tested_values(*v);
                    let piece = seq![*v] + t;
                    let kp = seq![b] + sub@;
                    assert(pieces[i as int] == piece);
                    assert(pieces.take(i + 1) =~= pieces.take(i as int).push(piece));
                    pieces.take(i as int).lemma_flatten_push(piece);
                    assert(marks_from(*filter, seq![*v], seq![b])) by {
                        assert(seq![*v][0] == *v);
                        assert(seq![b][0] == b);
                    }
                    lemma_marks_concat(*filter, seq![*v], seq![b], t, sub@);
                    lemma_marks_concat(*filter, pieces.take(i as int).flatten(), keep, piece, kp);
                    lemma_picked_one(*v, b);
                    lemma_picked_concat(seq![*v], seq![b], t, sub@);
                    lemma_picked_concat(pieces.take(i as int).flatten(), keep, piece, kp);
                    if b {
                        assert(mid =~= before.push(*v));
                    } else {
                        assert(mid =~= before);
                    }
                    keep = keep + kp;
                    assert(derefs(out@) =~= out0 + picked(pieces.take(i + 1).flatten(), keep));
                }
                i = i + 1;
            }
            proof {
                assert(pieces.take(m@.len() as int) =~= pieces);
                assert(tested_values(*value) == pieces.flatten());
            }
            Ghost(keep)
        },
        Json::Array(a) => {
            let ghost pieces = array_pieces(a@);
            let ghost mut keep: Seq<bool> = Seq::empty();
            assert(pieces.take(0).flatten() =~= Seq::<Json>::empty());
            let mut i: usize = 0;
            while i < a.len()
                invariant
                    *value == Json::Array(*a),
                    forall|v: &Json| call_requires(*filter, (v,)),
                    pieces == array_pieces(a@),
                    i <= a@.len(),
                    marks_from(*filter, pieces.take(i as int).flatten(), keep),
                    derefs(out@) == out0 + picked(pieces.take(i as int).flatten(), keep),
                decreases a.len() - i,
            {
                proof {
                    lemma_array_item_decreases(*value, i as int);
                }
                let v = &a[i];
                let ghost before = derefs(out@);
                let sub = collect(v, filter, out);
                proof {
                    let piece = tested_values(*v);
                    assert(pieces[i as int] == piece);
                    assert(pieces.take(i + 1) =~= pieces.take(i as int).push(piece));
                    pieces.take(i as int).lemma_flatten_push(piece);
                    lemma_marks_concat(*filter, pieces.take(i as int).flatten(), keep, piece, sub@);
                    lemma_picked_concat(pieces.take(i as int).flatten(), keep, piece, sub@);
                    keep = keep + sub@;
                    assert(derefs(out@) =~= out0 + picked(pieces.take(i + 1).flatten(), keep));
                }
                i = i + 1;
            }
            proof {
                assert(pieces.take(a@.len() as int) =~= pieces);
            }
            Ghost(keep)
        },
        _ => {
            let b = filter(value);
            if b {
                out.push(value);
            }
            proof {
                lemma_picked_one(*value, b);
                assert(seq![*value][0] == *value);
                assert(seq![b][0] == b);
                if b {
                    assert(derefs(out@) =~= out0 + seq![*value]);
                } else {
                    assert(derefs(out@) =~= out0 + Seq::<Json>::empty());
                }
            }
            let ghost k = seq![b];
            Ghost(k)
        },
    }
}

/// The values in `value` that `filter` accepts, in the order the walk tests
/// them: the values a callback run on each accepted value would be handed. A
/// value inside an object that is neither an object nor an array is tested
/// twice.
pub fn filter_recursively<'a, F: Fn(&Json) -> bool>(value: &'a Json, filter: &F) -> (r: Vec<&'a Json>)
    requires
        forall|v: &Json| call_requires(*filter, (v,)),
    ensures
        exists|keep: Seq<bool>|
            marks_from(*filter, tested_values(*value), keep) && derefs(r@) == picked(
                tested_values(*value),
                keep,
            ),
{
    let mut out: Vec<&'a Json> = Vec::new();
    let keep = collect(value, filter, &mut out);
    assert(derefs(Seq::<&Json>::empty()) =~= Seq::<Json>::empty());
    assert(derefs(out@) =~= picked(tested_values(*value), keep@));
    out
}

/// The title and the data of a titled block: an object with both keys.
pub open spec fn title_block(data: JsonValue) -> Option<(JsonValue, JsonValue)> {
    match (data.get("title"@), data.get("data"@)) {
        (Some(t), Some(d)) => Some((t, d)),
        _ => None,
    }
}

/// The title and data that a titled block hands on, or `None` where the value
/// is not a titled block.
pub fn filter_title_objects(value: &Json) -> (r: Option<(&str, &Json)>)
    requires
        title_block(value.view()) matches Some((t, _)) ==> t is Str,
    ensures
        match r {
            Some((t, d)) => title_block(value.view()) == Some((JsonValue::Str(t@), d.view())),
            None => title_block(value.view()) is None,
        },
{
    match value.get("title") {
        Some(t) => match value.get("data") {
            Some(d) => Some((t.as_str().unwrap(), d)),
            None => None,
        },
        None => None,
    }
}

} // verus!
