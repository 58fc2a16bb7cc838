//! A JSON value as the hub holds it: null, booleans, numbers (non-negative
//! integers, negative integers, and finite doubles kept as their IEEE-754
//! bits), strings, arrays and objects. An object is a list of entries whose
//! keys are strictly increasing, the order in which a string-keyed tree map
//! walks its keys.
use vstd::prelude::*;
use crate::text::{str_equal, str_less, chars_lt, lemma_chars_lt_irreflexive, lemma_chars_lt_total, lemma_chars_lt_transitive};

verus! {

/// A JSON number. `NegInt` holds negative integers only; `Float` holds the
/// bit pattern of a finite double.
#[derive(Clone, Copy, Debug, PartialEq, Eq, Structural)]
pub enum JsonNumber {
    PosInt(u64),
    NegInt(i64),
    Float(u64),
}

/// A JSON value.
#[derive(Debug)]
pub enum Json {
    Null,
    Bool(bool),
    Number(JsonNumber),
    String(String),
    Array(Vec<Json>),
    Object(Vec<(String, Json)>),
}

/// The mathematical view of a JSON value.
pub enum JsonValue {
    Null,
    Bool(bool),
    Number(JsonNumber),
    Str(Seq<char>),
    Array(Seq<JsonValue>),
    Object(Seq<(Seq<char>, JsonValue)>),
}

/// Entries of an object, as the view sees them.
pub type Entries = Seq<(Seq<char>, JsonValue)>;

/// The empty JSON object.
pub open spec fn empty_object() -> JsonValue {
    JsonValue::Object(Seq::empty())
}

// ----- numbers -----------------------------------------------------------

/// The double with these bits is NaN.
pub open spec fn float_bits_nan(b: u64) -> bool {
    (b >> 52u64) & 0x7ffu64 == 0x7ffu64 && b & 0xf_ffff_ffff_ffffu64 != 0
}

/// The double with these bits is neither infinite nor NaN.
pub open spec fn float_bits_finite(b: u64) -> bool {
    (b >> 52u64) & 0x7ffu64 != 0x7ffu64
}

/// The double with these bits is +0.0 or -0.0.
pub open spec fn float_bits_zero(b: u64) -> bool {
    b & 0x7fff_ffff_ffff_ffffu64 == 0
}

/// IEEE-754 equality of two doubles given by their bits.
pub open spec fn float_bits_eq(a: u64, b: u64) -> bool {
    !float_bits_nan(a) && !float_bits_nan(b) && (a == b || (float_bits_zero(a)
        && float_bits_zero(b)))
}

/// A number that a JSON value can hold.
pub open spec fn number_wf(n: JsonNumber) -> bool {
    match n {
        JsonNumber::PosInt(_) => true,
        JsonNumber::NegInt(i) => i < 0,
        JsonNumber::Float(b) => float_bits_finite(b),
    }
}

/// Equality of JSON numbers: same kind and same value, doubles compared as doubles.
pub open spec fn number_eq(a: JsonNumber, b: JsonNumber) -> bool {
    match (a, b) {
        (JsonNumber::PosInt(x), JsonNumber::PosInt(y)) => x == y,
        (JsonNumber::NegInt(x), JsonNumber::NegInt(y)) => x == y,
        (JsonNumber::Float(x), JsonNumber::Float(y)) => float_bits_eq(x, y),
        _ => false,
    }
}

pub fn float_bits_equal(a: u64, b: u64) -> (r: bool)
    ensures
        r == float_bits_eq(a, b),
{
    let a_nan = (a >> 52u64) & 0x7ffu64 == 0x7ffu64 && a & 0xf_ffff_ffff_ffffu64 != 0;
    let b_nan = (b >> 52u64) & 0x7ffu64 == 0x7ffu64 && b & 0xf_ffff_ffff_ffffu64 != 0;
    let a_zero = a & 0x7fff_ffff_ffff_ffffu64 == 0;
    let b_zero = b & 0x7fff_ffff_ffff_ffffu64 == 0;
    !a_nan && !b_nan && (a == b || (a_zero && b_zero))
}

pub fn number_equal(a: JsonNumber, b: JsonNumber) -> (r: bool)
    ensures
        r == number_eq(a, b),
{
    match (a, b) {
        (JsonNumber::PosInt(x), JsonNumber::PosInt(y)) => x == y,
        (JsonNumber::NegInt(x), JsonNumber::NegInt(y)) => x == y,
        (JsonNumber::Float(x), JsonNumber::Float(y)) => float_bits_equal(x, y),
        _ => false,
    }
}

proof fn lemma_number_eq_refl(n: JsonNumber)
    requires
        number_wf(n),
    ensures
        number_eq(n, n),
{
    if let JsonNumber::Float(b) = n {
        assert(float_bits_finite(b) ==> !float_bits_nan(b)) by (bit_vector);
    }
}

// ----- objects -----------------------------------------------------------

/// The keys of the entries are strictly increasing.
pub open spec fn keys_sorted(s: Entries) -> bool {
    forall|i: int, j: int| 0 <= i < j < s.len() ==> chars_lt(#[trigger] s[i].0, #[trigger] s[j].0)
}

/// The value under key `k`, if any (the first entry with that key).
pub open spec fn entries_get(s: Entries, k: Seq<char>) -> Option<JsonValue>
    decreases s.len(),
{
    if s.len() == 0 {
        None
    } else if s[0].0 == k {
        Some(s[0].1)
    } else {
        entries_get(s.drop_first(), k)
    }
}

/// How many leading entries have keys below `k`: where `k` goes in a sorted list.
pub open spec fn insert_pos(s: Entries, k: Seq<char>) -> int
    decreases s.len(),
{
    if s.len() == 0 {
        0
    } else if chars_lt(s[0].0, k) {
        1 + insert_pos(s.drop_first(), k)
    } else {
        0
    }
}

/// Insertion into a key-sorted entry list, as a tree map does it: the value
/// of an existing key is replaced, a new key goes before the first larger key.
pub open spec fn entries_insert(s: Entries, k: Seq<char>, v: JsonValue) -> Entries {
    let p = insert_pos(s, k);
    if p < s.len() && s[p].0 == k {
        s.update(p, (k, v))
    } else {
        s.insert(p, (k, v))
    }
}

pub proof fn lemma_entries_get_some(s: Entries, k: Seq<char>, i: int)
    requires
        keys_sorted(s),
        0 <= i < s.len(),
        s[i].0 == k,
    ensures
        entries_get(s, k) == Some(s[i].1),
    decreases s.len(),
{
    if i > 0 {
        assert(chars_lt(s[0].0, s[i].0));
        lemma_chars_lt_irreflexive(k);
        assert(keys_sorted(s.drop_first())) by {
            assert forall|a: int, b: int| 0 <= a < b < s.drop_first().len() implies chars_lt(
                #[trigger] s.drop_first()[a].0,
                #[trigger] s.drop_first()[b].0,
            ) by {
                assert(s.drop_first()[a] == s[a + 1]);
                assert(s.drop_first()[b] == s[b + 1]);
            }
        }
        lemma_entries_get_some(s.drop_first(), k, i - 1);
    }
}

pub proof fn lemma_entries_get_none(s: Entries, k: Seq<char>)
    requires
        forall|i: int| 0 <= i < s.len() ==> s[i].0 != k,
    ensures
        entries_get(s, k) is None,
    decreases s.len(),
{
    if s.len() > 0 {
        assert forall|i: int| 0 <= i < s.drop_first().len() implies s.drop_first()[i].0 != k by {
            assert(s.drop_first()[i] == s[i + 1]);
        }
        lemma_entries_get_none(s.drop_first(), k);
    }
}

pub proof fn lemma_insert_pos(s: Entries, k: Seq<char>)
    ensures
        0 <= insert_pos(s, k) <= s.len(),
        forall|i: int| 0 <= i < insert_pos(s, k) ==> chars_lt(#[trigger] s[i].0, k),
        insert_pos(s, k) < s.len() ==> !chars_lt(s[insert_pos(s, k)].0, k),
    decreases s.len(),
{
    if s.len() > 0 && chars_lt(s[0].0, k) {
        lemma_insert_pos(s.drop_first(), k);
        assert forall|i: int| 0 <= i < insert_pos(s, k) implies chars_lt(#[trigger] s[i].0, k) by {
            if i > 0 {
                assert(s[i] == s.drop_first()[i - 1]);
            }
        }
    }
}

/// Insertion keeps the keys sorted.
pub proof fn lemma_entries_insert_sorted(s: Entries, k: Seq<char>, v: JsonValue)
    requires
        keys_sorted(s),
    ensures
        keys_sorted(entries_insert(s, k, v)),
        entries_insert(s, k, v).len() >= s.len(),
{
    lemma_insert_pos(s, k);
    let p = insert_pos(s, k);
    let r = entries_insert(s, k, v);
    if p < s.len() && s[p].0 == k {
        assert forall|a: int, b: int| 0 <= a < b < r.len() implies chars_lt(#[trigger] r[a].0, #[trigger] r[b].0) by {
            assert(r[a].0 == s[a].0);
            assert(r[b].0 == s[b].0);
        }
    } else {
        assert forall|i: int| p <= i < s.len() implies chars_lt(k, #[trigger] s[i].0) by {
            if i > p {
                assert(chars_lt(s[p].0, s[i].0));
                if chars_lt(s[i].0, k) {
                    lemma_chars_lt_transitive(s[p].0, s[i].0, k);
                }
                if s[i].0 == k {
                }
                lemma_chars_lt_total(k, s[i].0);
            } else {
                lemma_chars_lt_total(k, s[i].0);
            }
        }
        assert forall|a: int, b: int| 0 <= a < b < r.len() implies chars_lt(#[trigger] r[a].0, #[trigger] r[b].0) by {
            if b < p {
                assert(r[a] == s[a] && r[b] == s[b]);
            } else if b == p {
                assert(r[a] == s[a]);
            } else if a < p {
                assert(r[a] == s[a] && r[b] == s[b - 1]);
            } else if a == p {
                assert(r[b] == s[b - 1]);
            } else {
                assert(r[a] == s[a - 1] && r[b] == s[b - 1]);
            }
        }
    }
}

/// Insertion of a well-formed value among well-formed values.
pub proof fn lemma_entries_insert_wf(s: Entries, k: Seq<char>, v: JsonValue)
    ensures
        (forall|i: int| 0 <= i < s.len() ==> (#[trigger] s[i]).1.wf()) && v.wf() ==> forall|i: int|
            0 <= i < entries_insert(s, k, v).len() ==> (#[trigger] entries_insert(s, k, v)[i]).1.wf(),
{
    lemma_insert_pos(s, k);
    let p = insert_pos(s, k);
    let r = entries_insert(s, k, v);
    if (forall|i: int| 0 <= i < s.len() ==> (#[trigger] s[i]).1.wf()) && v.wf() {
        assert forall|i: int| 0 <= i < r.len() implies (#[trigger] r[i]).1.wf() by {
            if p < s.len() && s[p].0 == k {
                if i != p {
                    assert(r[i] == s[i]);
                }
            } else if i < p {
                assert(r[i] == s[i]);
            } else if i > p {
                assert(r[i] == s[i - 1]);
            }
        }
    }
}

/// After an insertion the key holds the new value and every other key keeps its own.
pub proof fn lemma_entries_insert_get(s: Entries, k: Seq<char>, v: JsonValue, k2: Seq<char>)
    requires
        keys_sorted(s),
    ensures
        entries_get(entries_insert(s, k, v), k2) == if k2 == k {
            Some(v)
        } else {
            entries_get(s, k2)
        },
{
    lemma_insert_pos(s, k);
    lemma_entries_insert_sorted(s, k, v);
    let p = insert_pos(s, k);
    let r = entries_insert(s, k, v);
    let replaced = p < s.len() && s[p].0 == k;
    if k2 == k {
        lemma_entries_get_some(r, k, p);
    } else if exists|j: int| 0 <= j < s.len() && s[j].0 == k2 {
        let j = choose|j: int| 0 <= j < s.len() && s[j].0 == k2;
        lemma_entries_get_some(s, k2, j);
        if replaced || j < p {
            assert(r[j] == s[j]);
            lemma_entries_get_some(r, k2, j);
        } else {
            assert(r[j + 1] == s[j]);
            lemma_entries_get_some(r, k2, j + 1);
        }
    } else {
        lemma_entries_get_none(s, k2);
        assert forall|i: int| 0 <= i < r.len() implies r[i].0 != k2 by {
            if replaced {
                if i != p {
                    assert(r[i] == s[i]);
                }
            } else if i < p {
                assert(r[i] == s[i]);
            } else if i > p {
                assert(r[i] == s[i - 1]);
            }
        }
        lemma_entries_get_none(r, k2);
    }
}

/// A value found in well-formed entries is well-formed.
pub proof fn lemma_entries_get_wf(s: Entries, k: Seq<char>)
    requires
        forall|i: int| 0 <= i < s.len() ==> (#[trigger] s[i]).1.wf(),
    ensures
        entries_get(s, k) matches Some(v) ==> v.wf(),
    decreases s.len(),
{
    if s.len() > 0 && s[0].0 != k {
        assert forall|i: int| 0 <= i < s.drop_first().len() implies (#[trigger] s.drop_first()[i]).1.wf() by {
            assert(s.drop_first()[i] == s[i + 1]);
        }
        lemma_entries_get_wf(s.drop_first(), k);
    }
}

// ----- values ------------------------------------------------------------

impl JsonValue {
    /// A value that the JSON library can hold: negative integers are `NegInt`,
    /// doubles are finite, object keys are strictly increasing.
    pub open spec fn wf(self) -> bool
        decreases self,
    {
        match self {
            JsonValue::Number(n) => number_wf(n),
            JsonValue::Array(a) => forall|i: int| 0 <= i < a.len() ==> (#[trigger] a[i]).wf(),
            JsonValue::Object(o) => keys_sorted(o) && forall|i: int|
                0 <= i < o.len() ==> (#[trigger] o[i]).1.wf(),
            _ => true,
        }
    }

    /// `==` of the JSON library: structural, numbers compared by `number_eq`.
    pub open spec fn json_eq(self, other: JsonValue) -> bool
        decreases self,
    {
        match self {
            JsonValue::Null => other is Null,
            JsonValue::Bool(x) => other matches JsonValue::Bool(y) && x == y,
            JsonValue::Number(x) => other matches JsonValue::Number(y) && number_eq(x, y),
            JsonValue::Str(x) => other matches JsonValue::Str(y) && x == y,
            JsonValue::Array(x) => match other {
                JsonValue::Array(y) => x.len() == y.len() && forall|i: int|
                    0 <= i < x.len() ==> (#[trigger] x[i]).json_eq(y[i]),
                _ => false,
            },
            JsonValue::Object(x) => match other {
                JsonValue::Object(y) => x.len() == y.len() && forall|i: int|
                    0 <= i < x.len() ==> (#[trigger] x[i]).0 == y[i].0 && x[i].1.json_eq(y[i].1),
                _ => false,
            },
        }
    }

    pub open spec fn is_number(self) -> bool {
        self is Number
    }

    /// The value as a non-negative integer, as `as_u64` gives it.
    pub open spec fn as_u64(self) -> Option<u64> {
        match self {
            JsonValue::Number(JsonNumber::PosInt(n)) => Some(n),
            _ => None,
        }
    }

    /// The string, as `as_str` gives it.
    pub open spec fn as_str(self) -> Option<Seq<char>> {
        match self {
            JsonValue::Str(s) => Some(s),
            _ => None,
        }
    }

    /// The value under a key, as `get` gives it: `None` unless an object holds it.
    pub open spec fn get(self, k: Seq<char>) -> Option<JsonValue> {
        match self {
            JsonValue::Object(o) => entries_get(o, k),
            _ => None,
        }
    }

    /// The value under a key, as indexing gives it: `Null` where `get` gives nothing.
    pub open spec fn index(self, k: Seq<char>) -> JsonValue {
        match self.get(k) {
            Some(v) => v,
            None => JsonValue::Null,
        }
    }
}

/// The value holds no double anywhere.
pub open spec fn integral(v: JsonValue) -> bool
    decreases v,
{
    match v {
        JsonValue::Number(JsonNumber::Float(_)) => false,
        JsonValue::Array(a) => forall|i: int| 0 <= i < a.len() ==> integral(#[trigger] a[i]),
        JsonValue::Object(o) => forall|i: int| 0 <= i < o.len() ==> integral(#[trigger] o[i].1),
        _ => true,
    }
}

/// `==` of the JSON library is equality of values, for well-formed values
/// without doubles: two booleans, strings, integers, arrays or objects are
/// equal exactly when they are the same value.
pub proof fn lemma_json_eq_is_equality(a: JsonValue, b: JsonValue)
    requires
        a.wf(),
        b.wf(),
        integral(a),
        integral(b),
    ensures
        a.json_eq(b) <==> a == b,
    decreases a,
{
    if a == b {
        lemma_json_eq_refl(a);
    } else if a.json_eq(b) {
        match a {
            JsonValue::Array(x) => {
                let y = b->Array_0;
                assert forall|i: int| 0 <= i < x.len() implies x[i] == y[i] by {
                    lemma_json_eq_is_equality(x[i], y[i]);
                }
                assert(x =~= y);
            },
            JsonValue::Object(x) => {
                let y = b->Object_0;
                assert forall|i: int| 0 <= i < x.len() implies x[i] == y[i] by {
                    lemma_json_eq_is_equality(x[i].1, y[i].1);
                }
                assert(x =~= y);
            },
            _ => {},
        }
    }
}

/// Every well-formed value equals itself.
pub proof fn lemma_json_eq_refl(v: JsonValue)
    requires
        v.wf(),
    ensures
        v.json_eq(v),
    decreases v,
{
    match v {
        JsonValue::Number(n) => lemma_number_eq_refl(n),
        JsonValue::Array(a) => {
            assert forall|i: int| 0 <= i < a.len() implies (#[trigger] a[i]).json_eq(a[i]) by {
                lemma_json_eq_refl(a[i]);
            }
        },
        JsonValue::Object(o) => {
            assert forall|i: int| 0 <= i < o.len() implies (#[trigger] o[i]).0 == o[i].0 && o[i].1.json_eq(
                o[i].1,
            ) by {
                lemma_json_eq_refl(o[i].1);
            }
        },
        _ => {},
    }
}

impl Json {
    /// The mathematical value.
    pub open spec fn json_view(self) -> JsonValue
        decreases self,
    {
        match self {
            Json::Null => JsonValue::Null,
            Json::Bool(b) => JsonValue::Bool(b),
            Json::Number(n) => JsonValue::Number(n),
            Json::String(s) => JsonValue::Str(s@),
            Json::Array(v) => JsonValue::Array(
                Seq::new(
                    v@.len(),
                    |i: int|
                        if 0 <= i < v@.len() {
                            v@[i].json_view()
                        } else {
                            JsonValue::Null
                        },
                ),
            ),
            Json::Object(v) => JsonValue::Object(
                Seq::new(
                    v@.len(),
                    |i: int|
                        if 0 <= i < v@.len() {
                            (v@[i].0@, v@[i].1.json_view())
                        } else {
                            (Seq::empty(), JsonValue::Null)
                        },
                ),
            ),
        }
    }
}

impl View for Json {
    type V = JsonValue;

    /// The mathematical view of the value.
    open spec fn view(&self) -> JsonValue {
        self.json_view()
    }
}

/// The view of an array's elements.
pub open spec fn array_view(v: Seq<Json>) -> Seq<JsonValue> {
    Seq::new(v.len(), |i: int| v[i].view())
}

/// The view of an object's entries.
pub open spec fn entries_view(v: Seq<(String, Json)>) -> Entries {
    Seq::new(v.len(), |i: int| (v[i].0@, v[i].1.view()))
}

pub proof fn lemma_view_array(v: Vec<Json>)
    ensures
        Json::Array(v).view() == JsonValue::Array(array_view(v@)),
{
    let j = Json::Array(v);
    assert(j.view()->Array_0 =~= array_view(v@));
}

pub proof fn lemma_view_object(v: Vec<(String, Json)>)
    ensures
        Json::Object(v).view() == JsonValue::Object(entries_view(v@)),
{
    let j = Json::Object(v);
    assert(j.view()->Object_0 =~= entries_view(v@));
}

/// A copy of a string with the same characters.
pub fn copy_string(s: &String) -> (r: String)
    ensures
        r@ == s@,
{
    s.clone()
}

/// An element of an array is smaller than the array (recursion over a value
/// terminates).
pub proof fn lemma_array_item_decreases(v: Json, i: int)
    requires
        v is Array,
        0 <= i < v->Array_0@.len(),
    ensures
        decreases_to!(v => v->Array_0@[i]),
{
    assert(decreases_to!(v => v->Array_0));
    assert(decreases_to!(v->Array_0 => v->Array_0@));
    assert(decreases_to!(v->Array_0@ => v->Array_0@[i]));
}

/// The value of an entry of an object is smaller than the object.
pub proof fn lemma_entry_value_decreases(v: Json, i: int)
    requires
        v is Object,
        0 <= i < v->Object_0@.len(),
    ensures
        decreases_to!(v => v->Object_0@[i].1),
{
    assert(decreases_to!(v => v->Object_0));
    assert(decreases_to!(v->Object_0 => v->Object_0@));
    assert(decreases_to!(v->Object_0@ => v->Object_0@[i]));
    assert(decreases_to!(v->Object_0@[i] => v->Object_0@[i].1));
}

impl Json {
    /// A copy of the value, element by element.
    pub fn deep_clone(&self) -> (r: Json)
        ensures
            r.view() == self.view(),
        decreases self,
    {
        match self {
            Json::Null => Json::Null,
            Json::Bool(b) => Json::Bool(*b),
            Json::Number(n) => Json::Number(*n),
            Json::String(s) => Json::String(copy_string(s)),
            Json::Array(v) => {
                let mut out: Vec<Json> = Vec::new();
                let mut i: usize = 0;
                while i < v.len()
                    invariant
                        *self == Json::Array(*v),
                        i <= v.len(),
                        out@.len() == i,
                        forall|j: int| 0 <= j < i ==> (#[trigger] out@[j]).view() == v@[j].view(),
                    decreases v.len() - i,
                {
                    proof {
                        lemma_array_item_decreases(*self, i as int);
                    }
                    let c = v[i].deep_clone();
                    out.push(c);
                    i = i + 1;
                }
                proof {
                    lemma_view_array(*v);
                    lemma_view_array(out);
                    assert(array_view(out@) =~= array_view(v@));
                }
                Json::Array(out)
            },
            Json::Object(v) => {
                let mut out: Vec<(String, Json)> = Vec::new();
                let mut i: usize = 0;
                while i < v.len()
                    invariant
                        *self == Json::Object(*v),
                        i <= v.len(),
                        out@.len() == i,
                        forall|j: int|
                            0 <= j < i ==> (#[trigger] out@[j]).0@ == v@[j].0@ && out@[j].1.view()
                                == v@[j].1.view(),
                    decreases v.len() - i,
                {
                    let k = copy_string(&v[i].0);
                    proof {
                        lemma_entry_value_decreases(*self, i as int);
                    }
                    let c = v[i].1.deep_clone();
                    out.push((k, c));
                    i = i + 1;
                }
                proof {
                    lemma_view_object(*v);
                    lemma_view_object(out);
                    assert(entries_view(out@) =~= entries_view(v@));
                }
                Json::Object(out)
            },
        }
    }

    /// `==` of the JSON library.
    pub fn json_equals(&self, other: &Json) -> (r: bool)
        ensures
            r == self.view().json_eq(other.view()),
        decreases self,
    {
        match self {
            Json::Null => match other {
                Json::Null => true,
                _ => false,
            },
            Json::Bool(x) => match other {
                Json::Bool(y) => *x == *y,
                _ => false,
            },
            Json::Number(x) => match other {
                Json::Number(y) => number_equal(*x, *y),
                _ => false,
            },
            Json::String(x) => match other {
                Json::String(y) => *x == *y,
                _ => false,
            },
            Json::Array(x) => match other {
                Json::Array(y) => {
                    proof {
                        lemma_view_array(*x);
                        lemma_view_array(*y);
                    }
                    if x.len() != y.len() {
                        return false;
                    }
                    let mut i: usize = 0;
                    while i < x.len()
                        invariant
                            i <= x.len(),
                            x.len() == y.len(),
                            *self == Json::Array(*x),
                            self.view() == JsonValue::Array(array_view(x@)),
                            other.view() == JsonValue::Array(array_view(y@)),
                            forall|j: int| 0 <= j < i ==> (#[trigger] x@[j]).view().json_eq(y@[j].view()),
                        decreases x.len() - i,
                    {
                        proof {
                            lemma_array_item_decreases(*self, i as int);
                        }
                        if !x[i].json_equals(&y[i]) {
                            assert(array_view(x@)[i as int] == x@[i as int].view());
                            return false;
                        }
                        i = i + 1;
                    }
                    assert forall|j: int| 0 <= j < array_view(x@).len() implies (#[trigger] array_view(
                        x@,
                    )[j]).json_eq(array_view(y@)[j]) by {
                        assert(x@[j].view().json_eq(y@[j].view()));
                    }
                    true
                },
                _ => false,
            },
            Json::Object(x) => match other {
                Json::Object(y) => {
                    proof {
                        lemma_view_object(*x);
                        lemma_view_object(*y);
                    }
                    if x.len() != y.len() {
                        return false;
                    }
                    let mut i: usize = 0;
                    while i < x.len()
                        invariant
                            i <= x.len(),
                            x.len() == y.len(),
                            *self == Json::Object(*x),
                            self.view() == JsonValue::Object(entries_view(x@)),
                            other.view() == JsonValue::Object(entries_view(y@)),
                            forall|j: int|
                                0 <= j < i ==> (#[trigger] x@[j]).0@ == y@[j].0@ && x@[j].1.view().json_eq(
                                    y@[j].1.view(),
                                ),
                        decreases x.len() - i,
                    {
                        if x[i].0 != y[i].0 {
                            assert(entries_view(x@)[i as int].0 == x@[i as int].0@);
                            return false;
                        }
                        proof {
                            lemma_entry_value_decreases(*self, i as int);
                        }
                        if !x[i].1.json_equals(&y[i].1) {
                            assert(entries_view(x@)[i as int].1 == x@[i as int].1.view());
                            return false;
                        }
                        i = i + 1;
                    }
                    assert forall|j: int| 0 <= j < entries_view(x@).len() implies (
                    #[trigger] entries_view(x@)[j]).0 == entries_view(y@)[j].0 && entries_view(
                        x@,
                    )[j].1.json_eq(entries_view(y@)[j].1) by {
                        assert(x@[j].0@ == y@[j].0@);
                    }
                    true
                },
                _ => false,
            },
        }
    }
}

/// Inserts `key` with `value` into key-sorted object entries, replacing the
/// value of an existing key.
pub fn entries_put(entries: &mut Vec<(String, Json)>, key: String, value: Json)
    ensures
        entries_view(final(entries)@) == entries_insert(entries_view(old(entries)@), key@, value.view()),
{
    let ghost s = entries_view(entries@);
    proof {
        lemma_insert_pos(s, key@);
    }
    let mut p: usize = 0;
    while p < entries.len() && str_less(entries[p].0.as_str(), key.as_str())
        invariant
            s == entries_view(entries@),
            p <= entries.len(),
            forall|i: int| 0 <= i < p ==> chars_lt(#[trigger] s[i].0, key@),
        decreases entries.len() - p,
    {
        p = p + 1;
    }
    proof {
        let ip = insert_pos(s, key@);
        if p < ip {
            assert(chars_lt(s[p as int].0, key@));
        }
        if ip < p {
            assert(chars_lt(s[ip].0, key@));
        }
        assert(ip == p);
    }
    let ghost k = key@;
    let ghost vv = value.view();
    if p < entries.len() && entries[p].0 == key {
        entries.set(p, (key, value));
        assert(entries_view(entries@) =~= s.update(p as int, (k, vv)));
    } else {
        entries.insert(p, (key, value));
        assert(entries_view(entries@) =~= s.insert(p as int, (k, vv)));
    }
}

/// The value under a key in object entries.
pub fn entries_lookup<'a>(entries: &'a Vec<(String, Json)>, key: &str) -> (r: Option<&'a Json>)
    ensures
        match r {
            Some(v) => entries_get(entries_view(entries@), key@) == Some(v.view()),
            None => entries_get(entries_view(entries@), key@) is None,
        },
{
    let ghost s = entries_view(entries@);
    assert(s.skip(0) =~= s);
    let mut i: usize = 0;
    while i < entries.len()
        invariant
            s == entries_view(entries@),
            i <= entries.len(),
            entries_get(s, key@) == entries_get(s.skip(i as int), key@),
        decreases entries.len() - i,
    {
        assert(s.skip(i as int).drop_first() =~= s.skip(i + 1));
        assert(s.skip(i as int)[0] == s[i as int]);
        if str_equal(entries[i].0.as_str(), key) {
            return Some(&entries[i].1);
        }
        i = i + 1;
    }
    None
}

impl Json {
    /// The value under a key of an object (`None` for a missing key or a non-object).
    pub fn get(&self, key: &str) -> (r: Option<&Json>)
        ensures
            match r {
                Some(v) => self.view().get(key@) == Some(v.view()),
                None => self.view().get(key@) is None,
            },
    {
        match self {
            Json::Object(entries) => {
                proof {
                    lemma_view_object(*entries);
                }
                entries_lookup(entries, key)
            },
            _ => None,
        }
    }

    /// The value under a key, or `Null` (indexing a value with a string).
    pub fn index(&self, key: &str) -> (r: Json)
        ensures
            r.view() == self.view().index(key@),
    {
        match self.get(key) {
            Some(v) => v.deep_clone(),
            None => Json::Null,
        }
    }

    /// The value as a non-negative integer.
    pub fn as_u64(&self) -> (r: Option<u64>)
        ensures
            r == self.view().as_u64(),
    {
        match self {
            Json::Number(JsonNumber::PosInt(n)) => Some(*n),
            _ => None,
        }
    }

    /// The string the value holds.
    pub fn as_str(&self) -> (r: Option<&str>)
        ensures
            match r {
                Some(t) => self.view().as_str() == Some(t@),
                None => self.view().as_str() is None,
            },
    {
        match self {
            Json::String(s) => Some(s.as_str()),
            _ => None,
        }
    }

    pub fn is_number(&self) -> (r: bool)
        ensures
            r == self.view() is Number,
    {
        match self {
            Json::Number(_) => true,
            _ => false,
        }
    }

    pub fn is_null(&self) -> (r: bool)
        ensures
            r == self.view() is Null,
    {
        match self {
            Json::Null => true,
            _ => false,
        }
    }

    /// An object from entries in any order; a later entry replaces an earlier one
    /// with the same key.
    pub fn object_from(input: Vec<(String, Json)>) -> (r: Json)
        ensures
            (forall|i: int| 0 <= i < input@.len() ==> (#[trigger] input@[i]).1.view().wf()) ==> r.view().wf(),
            r.view() is Object,
            keys_sorted(r.view()->Object_0),
            forall|k: Seq<char>| r.view().get(k) == entries_get_last(entries_view(input@), k),
    {
        let mut out: Vec<(String, Json)> = Vec::new();
        let mut entries = input;
        let ghost all = entries_view(entries@);
        let total: usize = entries.len();
        let mut consumed: usize = 0;
        proof {
            assert(entries_view(entries@).skip(0) =~= all);
        }
        while entries.len() > 0
            invariant
                entries_view(entries@) == all.skip(consumed as int),
                consumed <= all.len(),
                all.len() == total,
                keys_sorted(entries_view(out@)),
                (forall|j: int| 0 <= j < all.len() ==> (#[trigger] all[j]).1.wf()) ==> forall|i: int|
                    0 <= i < entries_view(out@).len() ==> (#[trigger] entries_view(out@)[i]).1.wf(),
                forall|k: Seq<char>| entries_get(entries_view(out@), k) == entries_get_last(all.take(consumed as int), k),
            decreases entries.len(),
        {
            let ghost old_view = entries_view(entries@);
            let ghost old_vec = entries@;
            assert(old_view.len() == entries@.len());
            assert(consumed < all.len());
            let (k, v) = entries.remove(0);
            proof {
                assert(old_view[0] == (old_vec[0].0@, old_vec[0].1.view()));
                assert(all.skip(consumed as int)[0] == all[consumed as int]);
                assert(all[consumed as int] == (k@, v.view()));
                assert(entries_view(entries@) =~= old_view.drop_first());
                assert(old_view.drop_first() =~= all.skip(consumed + 1));
            }
            let ghost before = entries_view(out@);
            entries_put(&mut out, k, v);
            proof {
                lemma_entries_insert_sorted(before, all[consumed as int].0, all[consumed as int].1);
                assert forall|k2: Seq<char>| entries_get(entries_view(out@), k2) == entries_get_last(
                    all.take(consumed + 1),
                    k2,
                ) by {
                    lemma_entries_insert_get(before, all[consumed as int].0, all[consumed as int].1, k2);
                    assert(all.take(consumed + 1).drop_last() =~= all.take(consumed as int));
                }
                lemma_entries_insert_wf(before, all[consumed as int].0, all[consumed as int].1);
            }
            consumed = consumed + 1;
        }
        proof {
            assert(all.take(consumed as int) =~= all);
            lemma_view_object(out);
            if forall|i: int| 0 <= i < input@.len() ==> (#[trigger] input@[i]).1.view().wf() {
                assert forall|j: int| 0 <= j < all.len() implies (#[trigger] all[j]).1.wf() by {
                    assert(all[j].1 == input@[j].1.view());
                }
            }
        }
        Json::Object(out)
    }
}

/// The value under key `k` in the last entry that has it.
pub open spec fn entries_get_last(s: Entries, k: Seq<char>) -> Option<JsonValue>
    decreases s.len(),
{
    if s.len() == 0 {
        None
    } else if s.last().0 == k {
        Some(s.last().1)
    } else {
        entries_get_last(s.drop_last(), k)
    }
}

} // verus!
