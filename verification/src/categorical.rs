//! Numbers kept per data block: one entry for each category, title and
//! sending node. The numbers (`N`) are the caller's.
use vstd::prelude::*;

verus! {

/// Where a number comes from: its category, the title of its block and the
/// node that sent it.
#[derive(Debug, Hash)]
pub struct DataBlockKey {
    pub category: String,
    pub title: String,
    pub from: String,
}

/// The view of a key: its three texts.
pub type KeyView = (Seq<char>, Seq<char>, Seq<char>);

impl DataBlockKey {
    pub open spec fn view(&self) -> KeyView {
        (self.category@, self.title@, self.from@)
    }
}

impl PartialEq for DataBlockKey {
    fn eq(&self, other: &Self) -> (r: bool) {
        self.category == other.category && self.title == other.title && self.from == other.from
    }
}

impl Eq for DataBlockKey {}

impl vstd::std_specs::cmp::PartialEqSpecImpl for DataBlockKey {
    open spec fn obeys_eq_spec() -> bool {
        true
    }

    open spec fn eq_spec(&self, other: &Self) -> bool {
        self.view() == other.view()
    }
}

/// A number of a block, its values in other units, and the unit it is in.
#[derive(Debug)]
pub struct CategoricalNumberDataEntry<N> {
    pub number: N,
    pub converted_values: Vec<(String, N)>,
    pub suffix: Option<String>,
}

/// The entry kept under a key: that of the first pair with that key.
pub open spec fn block_get<E>(s: Seq<(KeyView, E)>, k: KeyView) -> Option<E>
    decreases s.len(),
{
    if s.len() == 0 {
        None
    } else if s[0].0 == k {
        Some(s[0].1)
    } else {
        block_get(s.drop_first(), k)
    }
}

proof fn lemma_block_get_index<E>(s: Seq<(KeyView, E)>, k: KeyView, i: int)
    requires
        0 <= i < s.len(),
        s[i].0 == k,
        forall|j: int| 0 <= j < i ==> s[j].0 != k,
    ensures
        block_get(s, k) == Some(s[i].1),
    decreases i,
{
    if i > 0 {
        assert forall|j: int| 0 <= j < i - 1 implies s.drop_first()[j].0 != k by {
            assert(s.drop_first()[j] == s[j + 1]);
        }
        lemma_block_get_index(s.drop_first(), k, i - 1);
    }
}

proof fn lemma_block_get_none<E>(s: Seq<(KeyView, E)>, k: KeyView)
    requires
        forall|j: int| 0 <= j < s.len() ==> s[j].0 != k,
    ensures
        block_get(s, k) is None,
    decreases s.len(),
{
    if s.len() > 0 {
        assert forall|j: int| 0 <= j < s.drop_first().len() implies s.drop_first()[j].0 != k by {
            assert(s.drop_first()[j] == s[j + 1]);
        }
        lemma_block_get_none(s.drop_first(), k);
    }
}

proof fn lemma_block_get_update<E>(s: Seq<(KeyView, E)>, i: int, k: KeyView, e: E, k2: KeyView)
    requires
        0 <= i < s.len(),
        s[i].0 == k,
        k2 != k,
    ensures
        block_get(s.update(i, (k, e)), k2) == block_get(s, k2),
    decreases s.len(),
{
    let t = s.update(i, (k, e));
    if i > 0 {
        assert(t.drop_first() =~= s.drop_first().update(i - 1, (k, e)));
        lemma_block_get_update(s.drop_first(), i - 1, k, e, k2);
    } else {
        assert(t.drop_first() =~= s.drop_first());
    }
}

proof fn lemma_block_get_push<E>(s: Seq<(KeyView, E)>, k: KeyView, e: E, k2: KeyView)
    requires
        k2 != k,
    ensures
        block_get(s.push((k, e)), k2) == block_get(s, k2),
    decreases s.len(),
{
    let t = s.push((k, e));
    if s.len() > 0 {
        assert(t.drop_first() =~= s.drop_first().push((k, e)));
        lemma_block_get_push(s.drop_first(), k, e, k2);
    } else {
        assert(t.drop_first() =~= s);
    }
}

/// The numbers of the data blocks.
pub struct CategoricalNumberData<N> {
    pub numbers: Vec<(DataBlockKey, CategoricalNumberDataEntry<N>)>,
}

/// The view of the numbers: keys by their texts.
pub open spec fn numbers_view<N>(v: Seq<(DataBlockKey, CategoricalNumberDataEntry<N>)>) -> Seq<(KeyView, CategoricalNumberDataEntry<N>)> {
    v.map_values(|p: (DataBlockKey, CategoricalNumberDataEntry<N>)| (p.0.view(), p.1))
}

/// No key occurs twice.
pub open spec fn keys_unique<E>(s: Seq<(KeyView, E)>) -> bool {
    forall|a: int, b: int| 0 <= a < b < s.len() ==> s[a].0 != s[b].0
}

impl<N> CategoricalNumberData<N> {
    /// Each key has one entry.
    pub open spec fn wf(&self) -> bool {
        keys_unique(numbers_view(self.numbers@))
    }

    /// No numbers.
    pub fn new() -> (r: Self)
        ensures
            r.numbers@.len() == 0,
            r.wf(),
    {
        CategoricalNumberData { numbers: Vec::new() }
    }

    /// Keeps `new_entry` as the entry of `key`, replacing the number, the
    /// converted values and the suffix it had.
    pub fn add_number(&mut self, key: DataBlockKey, new_entry: CategoricalNumberDataEntry<N>)
        ensures
            block_get(numbers_view(final(self).numbers@), key.view()) == Some(new_entry),
            forall|k: KeyView| k != key.view() ==> block_get(numbers_view(final(self).numbers@), k)
                == block_get(numbers_view(old(self).numbers@), k),
            final(self).numbers@.len() == old(self).numbers@.len() + if block_get(
                numbers_view(old(self).numbers@),
                key.view(),
            ) is None {
                1int
            } else {
                0int
            },
            old(self).wf() ==> final(self).wf(),
    {
        let ghost s = numbers_view(self.numbers@);
        let ghost k = key.view();
        let ghost e = new_entry;
        let mut i: usize = 0;
        while i < self.numbers.len()
            invariant
                s == numbers_view(self.numbers@),
                k == key.view(),
                e == new_entry,
                self.numbers@ == old(self).numbers@,
                i <= self.numbers@.len(),
                forall|j: int| 0 <= j < i ==> s[j].0 != k,
            decreases self.numbers.len() - i,
        {
            if self.numbers[i].0 == key {
                assert(s[i as int].0 == k);
                self.numbers.set(i, (key, new_entry));
                proof {
                    let t = numbers_view(self.numbers@);
                    assert(t[i as int] == (k, e));
                    assert(t =~= s.update(i as int, (k, e)));
                    lemma_block_get_index(t, k, i as int);
                    lemma_block_get_index(s, k, i as int);
                    assert forall|a: int, b: int| 0 <= a < b < t.len() && keys_unique(s) implies t[a].0 != t[b].0 by {
                        assert(t[a].0 == s[a].0 && t[b].0 == s[b].0);
                    }
                    assert forall|k2: KeyView| k2 != k implies block_get(t, k2) == block_get(s, k2) by {
                        lemma_block_get_update(s, i as int, k, e, k2);
                    }
                }
                return;
            }
            i = i + 1;
        }
        self.numbers.push((key, new_entry));
        proof {
            let t = numbers_view(self.numbers@);
            assert(t =~= s.push((k, e)));
            lemma_block_get_index(t, k, s.len() as int);
            lemma_block_get_none(s, k);
            assert forall|a: int, b: int| 0 <= a < b < t.len() && keys_unique(s) implies t[a].0 != t[b].0 by {
                if b < s.len() {
                    assert(t[a].0 == s[a].0 && t[b].0 == s[b].0);
                } else {
                    assert(t[a].0 == s[a].0);
                }
            }
            assert forall|k2: KeyView| k2 != k implies block_get(t, k2) == block_get(s, k2) by {
                lemma_block_get_push(s, k, e, k2);
            }
        }
    }
}

} // verus!
