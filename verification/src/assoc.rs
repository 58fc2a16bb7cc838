//! Association lists keyed by text: the value of a key is that of its first pair.
use vstd::prelude::*;

verus! {

/// The value under key `k` in the first pair that has it.
pub open spec fn assoc_get<S>(s: Seq<(Seq<char>, S)>, k: Seq<char>) -> Option<S>
    decreases s.len(),
{
    if s.len() == 0 {
        None
    } else if s[0].0 == k {
        Some(s[0].1)
    } else {
        assoc_get(s.drop_first(), k)
    }
}

pub proof fn lemma_assoc_get_index<S>(s: Seq<(Seq<char>, S)>, k: Seq<char>, i: int)
    requires
        0 <= i < s.len(),
        s[i].0 == k,
        forall|j: int| 0 <= j < i ==> s[j].0 != k,
    ensures
        assoc_get(s, k) == Some(s[i].1),
    decreases i,
{
    if i > 0 {
        assert forall|j: int| 0 <= j < i - 1 implies s.drop_first()[j].0 != k by {
            assert(s.drop_first()[j] == s[j + 1]);
        }
        lemma_assoc_get_index(s.drop_first(), k, i - 1);
    }
}

pub proof fn lemma_assoc_get_none<S>(s: Seq<(Seq<char>, S)>, k: Seq<char>)
    requires
        forall|j: int| 0 <= j < s.len() ==> s[j].0 != k,
    ensures
        assoc_get(s, k) is None,
    decreases s.len(),
{
    if s.len() > 0 {
        assert forall|j: int| 0 <= j < s.drop_first().len() implies s.drop_first()[j].0 != k by {
            assert(s.drop_first()[j] == s[j + 1]);
        }
        lemma_assoc_get_none(s.drop_first(), k);
    }
}

pub proof fn lemma_assoc_get_unique<S>(s: Seq<(Seq<char>, S)>, k: Seq<char>)
    requires
        forall|a: int, b: int| 0 <= a < b < s.len() ==> s[a].0 != s[b].0,
    ensures
        match assoc_get(s, k) {
            Some(v) => exists|i: int| 0 <= i < s.len() && s[i] == (k, v),
            None => forall|i: int| 0 <= i < s.len() ==> s[i].0 != k,
        },
{
    if exists|i: int| 0 <= i < s.len() && s[i].0 == k {
        let i = choose|i: int| 0 <= i < s.len() && s[i].0 == k;
        lemma_assoc_get_index(s, k, i);
        assert(s[i] == (k, s[i].1));
    } else {
        lemma_assoc_get_none(s, k);
    }
}

/// The pairs after setting `k` to `v`: the first pair with key `k` takes the
/// value, or a new pair goes at the end.
pub open spec fn assoc_insert<S>(s: Seq<(Seq<char>, S)>, k: Seq<char>, v: S) -> Seq<(Seq<char>, S)>
    decreases s.len(),
{
    if s.len() == 0 {
        seq![(k, v)]
    } else if s[0].0 == k {
        seq![(k, v)] + s.drop_first()
    } else {
        seq![s[0]] + assoc_insert(s.drop_first(), k, v)
    }
}

/// After setting a key it has the new value; every other key keeps its own.
pub proof fn lemma_assoc_insert_get<S>(s: Seq<(Seq<char>, S)>, k: Seq<char>, v: S, k2: Seq<char>)
    ensures
        assoc_get(assoc_insert(s, k, v), k2) == if k2 == k {
            Some(v)
        } else {
            assoc_get(s, k2)
        },
    decreases s.len(),
{
    let r = assoc_insert(s, k, v);
    if s.len() == 0 {
        assert(r.drop_first() =~= Seq::<(Seq<char>, S)>::empty());
        assert(assoc_get(r.drop_first(), k2) is None);
        assert(r[0] == (k, v));
    } else if s[0].0 == k {
        assert(r.drop_first() =~= s.drop_first());
        assert(r[0] == (k, v));
    } else {
        lemma_assoc_insert_get(s.drop_first(), k, v, k2);
        assert(r.drop_first() =~= assoc_insert(s.drop_first(), k, v));
        assert(r[0] == s[0]);
    }
}

/// Setting a key where its first pair is at `i` updates that pair; where no
/// pair has it, appends one.
pub proof fn lemma_assoc_insert_shape<S>(s: Seq<(Seq<char>, S)>, k: Seq<char>, v: S, i: int)
    requires
        0 <= i <= s.len(),
        forall|j: int| 0 <= j < i ==> s[j].0 != k,
        i < s.len() ==> s[i].0 == k,
    ensures
        assoc_insert(s, k, v) == if i < s.len() {
            s.update(i, (k, v))
        } else {
            s.push((k, v))
        },
    decreases s.len(),
{
    if s.len() == 0 {
        assert(seq![(k, v)] =~= s.push((k, v)));
    } else if i == 0 {
        assert(seq![(k, v)] + s.drop_first() =~= s.update(0, (k, v)));
    } else {
        assert forall|j: int| 0 <= j < i - 1 implies s.drop_first()[j].0 != k by {
            assert(s.drop_first()[j] == s[j + 1]);
        }
        lemma_assoc_insert_shape(s.drop_first(), k, v, i - 1);
        if i < s.len() {
            assert(seq![s[0]] + s.drop_first().update(i - 1, (k, v)) =~= s.update(i, (k, v)));
        } else {
            assert(seq![s[0]] + s.drop_first().push((k, v)) =~= s.push((k, v)));
        }
    }
}

/// The index of the first pair with key `key`, if any.
pub fn assoc_find<S>(pairs: &Vec<(String, S)>, key: &str) -> (r: Option<usize>)
    ensures
        match r {
            Some(i) => i < pairs@.len() && pairs@[i as int].0@ == key@ && forall|j: int|
                0 <= j < i ==> pairs@[j].0@ != key@,
            None => forall|j: int| 0 <= j < pairs@.len() ==> pairs@[j].0@ != key@,
        },
{
    let mut i: usize = 0;
    while i < pairs.len()
        invariant
            i <= pairs@.len(),
            forall|j: int| 0 <= j < i ==> pairs@[j].0@ != key@,
        decreases pairs.len() - i,
    {
        if crate::text::str_equal(pairs[i].0.as_str(), key) {
            return Some(i);
        }
        i = i + 1;
    }
    None
}

/// The view of pairs keyed by strings.
pub open spec fn pairs_view<S>(pairs: Seq<(String, S)>) -> Seq<(Seq<char>, S)> {
    pairs.map_values(|p: (String, S)| (p.0@, p.1))
}

/// Sets `key` to `value` in the pairs.
pub fn assoc_set<S>(pairs: &mut Vec<(String, S)>, key: String, value: S)
    ensures
        pairs_view(final(pairs)@) == assoc_insert(pairs_view(old(pairs)@), key@, value),
{
    let ghost s = pairs_view(pairs@);
    let ghost k = key@;
    let ghost v = value;
    match assoc_find(pairs, key.as_str()) {
        Some(i) => {
            proof {
                lemma_assoc_insert_shape(s, k, v, i as int);
            }
            pairs.set(i, (key, value));
            assert(pairs_view(pairs@) =~= s.update(i as int, (k, v)));
        },
        None => {
            proof {
                lemma_assoc_insert_shape(s, k, v, s.len() as int);
            }
            pairs.push((key, value));
            assert(pairs_view(pairs@) =~= s.push((k, v)));
        },
    }
}

} // verus!
